//! How skills are read back from the records of the skill dat files.
use vstd::prelude::*;
use std::collections::{HashMap, HashSet};
use crate::ids::{SkillId, VisualEffectId};
use crate::skill::{
    opt_view, EnchantInfo, EnchantInfoView, EnchantLevelInfo, EnchantLevelInfoView,
    RacesSkillSoundInfo, Skill, SkillLevelInfo, SkillLevelInfoView, SkillSoundInfo,
    SkillSoundInfoView, SkillView, SoundInfo, SoundInfoView,
};
use crate::skill_dat::{
    SkillGrpDat, SkillGrpDatView, SkillNameDat, SkillNameTableRecord, SkillSoundDat,
    SkillSoundSourceDat,
};
use crate::string_table::L2GeneralStringTable;
use crate::text::{to_uppercase, uppercase};
use crate::vec_util::reversed;

verus! {

broadcast use {
    vstd::std_specs::hash::group_hash_axioms,
    vstd::map::group_map_axioms,
};

/// The sound record used for a skill that `skillsoundgrp.dat` does not list.
pub open spec fn default_sound() -> SkillSoundDat {
    SkillSoundDat {
        id: 0,
        level: 0,
        effect_sounds: [0u32, 0, 0, 0, 0, 0, 0, 0, 0],
        effect_params: [0u32, 0, 0, 0, 0, 0, 0, 0, 0, 0, 0, 0, 0, 0, 0, 0, 0, 0, 0, 0, 0, 0, 0, 0, 0, 0, 0],
        cast_sounds: [0u32, 0, 0, 0, 0, 0, 0, 0, 0, 0, 0, 0, 0, 0, 0, 0, 0, 0],
        mextra_throw: 0,
        magic_sounds: [0u32, 0, 0, 0, 0, 0, 0, 0, 0, 0, 0, 0, 0, 0, 0, 0, 0, 0],
        fextra_throw: 0,
        cast_volume: 0,
        cast_rad: 0,
    }
}

/// The sound-source record used for a skill that `skillsoundsource.dat` does not list.
pub open spec fn default_source() -> SkillSoundSourceDat {
    SkillSoundSourceDat { id: 0, effects: [0u32, 0, 0, 0, 0, 0, 0, 0, 0] }
}

/// Whether every name number that a sound record holds is in a table of `len` texts.
pub open spec fn sound_refs_valid(s: SkillSoundDat, len: nat) -> bool {
    &&& forall|k: int| 0 <= k < 9 ==> (#[trigger] s.effect_sounds@[k]) < len
    &&& forall|k: int| 0 <= k < 18 ==> (#[trigger] s.cast_sounds@[k]) < len
    &&& forall|k: int| 0 <= k < 18 ==> (#[trigger] s.magic_sounds@[k]) < len
    &&& s.mextra_throw < len
    &&& s.fextra_throw < len
}

/// The texts with the given numbers.
pub open spec fn texts_at(gdn: Seq<Seq<char>>, idx: Seq<u32>) -> Seq<Seq<char>> {
    idx.map_values(|i: u32| gdn[i as int])
}

/// The sounds of a skill as its sound and sound-source records give them.
pub open spec fn sound_info_from(s: SkillSoundDat, src: SkillSoundSourceDat, gdn: Seq<Seq<char>>) -> SkillSoundInfoView {
    SkillSoundInfoView {
        effects: Seq::new(
            9,
            |k: int|
                SoundInfoView {
                    sound: gdn[s.effect_sounds@[k] as int],
                    vol: s.effect_params@[3 * k],
                    rad: s.effect_params@[3 * k + 1],
                    delay: s.effect_params@[3 * k + 2],
                    source: src.effects@[k],
                },
        ),
        sound_before_cast: texts_at(gdn, s.cast_sounds@),
        sound_after_cast: texts_at(gdn, s.magic_sounds@),
        mextra_throw: gdn[s.mextra_throw as int],
        fextra_throw: gdn[s.fextra_throw as int],
        vol: s.cast_volume,
        rad: s.cast_rad,
    }
}

fn sound_at(
    gdn: &L2GeneralStringTable,
    s: &SkillSoundDat,
    src: &SkillSoundSourceDat,
    k: usize,
) -> (r: SoundInfo)
    requires
        k < 9,
        sound_refs_valid(*s, gdn@.len()),
    ensures
        r@ == sound_info_from(*s, *src, gdn@).effects[k as int],
{
    SoundInfo {
        sound: gdn.index(s.effect_sounds[k]).clone(),
        vol: s.effect_params[3 * k],
        rad: s.effect_params[3 * k + 1],
        delay: s.effect_params[3 * k + 2],
        source: src.effects[k],
    }
}

fn races_at(gdn: &L2GeneralStringTable, idx: &[u32; 18]) -> (r: RacesSkillSoundInfo)
    requires
        forall|k: int| 0 <= k < 18 ==> (#[trigger] idx@[k]) < gdn@.len(),
    ensures
        r@ == texts_at(gdn@, idx@),
{
    let r = RacesSkillSoundInfo {
        mfighter: gdn.index(idx[0]).clone(),
        ffighter: gdn.index(idx[1]).clone(),
        mmagic: gdn.index(idx[2]).clone(),
        fmagic: gdn.index(idx[3]).clone(),
        melf: gdn.index(idx[4]).clone(),
        felf: gdn.index(idx[5]).clone(),
        mdark_elf: gdn.index(idx[6]).clone(),
        fdark_elf: gdn.index(idx[7]).clone(),
        mdwarf: gdn.index(idx[8]).clone(),
        fdwarf: gdn.index(idx[9]).clone(),
        morc: gdn.index(idx[10]).clone(),
        forc: gdn.index(idx[11]).clone(),
        mshaman: gdn.index(idx[12]).clone(),
        fshaman: gdn.index(idx[13]).clone(),
        mkamael: gdn.index(idx[14]).clone(),
        fkamael: gdn.index(idx[15]).clone(),
        mertheia: gdn.index(idx[16]).clone(),
        fertheia: gdn.index(idx[17]).clone(),
    };
    proof {
        assert(r@ =~= texts_at(gdn@, idx@));
    }
    r
}

/// The sounds of a skill from its sound and sound-source records.
pub fn sound_info_from_records(
    gdn: &L2GeneralStringTable,
    s: &SkillSoundDat,
    src: &SkillSoundSourceDat,
) -> (r: SkillSoundInfo)
    requires
        sound_refs_valid(*s, gdn@.len()),
    ensures
        r@ == sound_info_from(*s, *src, gdn@),
{
    let r = SkillSoundInfo {
        spell_effect_1: sound_at(gdn, s, src, 0),
        spell_effect_2: sound_at(gdn, s, src, 1),
        spell_effect_3: sound_at(gdn, s, src, 2),
        shot_effect_1: sound_at(gdn, s, src, 3),
        shot_effect_2: sound_at(gdn, s, src, 4),
        shot_effect_3: sound_at(gdn, s, src, 5),
        exp_effect_1: sound_at(gdn, s, src, 6),
        exp_effect_2: sound_at(gdn, s, src, 7),
        exp_effect_3: sound_at(gdn, s, src, 8),
        sound_before_cast: races_at(gdn, &s.cast_sounds),
        sound_after_cast: races_at(gdn, &s.magic_sounds),
        mextra_throw: gdn.index(s.mextra_throw).clone(),
        fextra_throw: gdn.index(s.fextra_throw).clone(),
        vol: s.cast_volume,
        rad: s.cast_rad,
    };
    proof {
        assert(r@.effects =~= sound_info_from(*s, *src, gdn@).effects);
    }
    r
}

// ------------------------------------------------------------------------------------------
// Lookup tables
// ------------------------------------------------------------------------------------------

/// The key under which the name record of a skill level is found.
pub open spec fn name_key(id: u32, level: i16, sub: i16) -> u64 {
    (id as int * 0x1_0000_0000 + (level as u16) as int * 0x10000 + (sub as u16) as int) as u64
}

/// The key under which the name record of a skill level is found.
pub fn name_key_of(id: u32, level: i16, sub: i16) -> (r: u64)
    ensures
        r == name_key(id, level, sub),
{
    let l = #[verifier::truncate] (level as u16) as u64;
    let s = #[verifier::truncate] (sub as u16) as u64;
    let i = id as u64;
    assert(i * 0x1_0000_0000 + l * 0x10000 + s <= u64::MAX) by (nonlinear_arith)
        requires
            i <= 0xffff_ffff,
            l <= 0xffff,
            s <= 0xffff,
    ;
    i * 0x1_0000_0000 + l * 0x10000 + s
}

/// The name record used for a level that `skillname-ru.dat` does not describe:
/// every text number points at "NOT EXIST".
pub open spec fn default_name() -> SkillNameDat {
    SkillNameDat {
        id: 0,
        level: 0,
        sub_level: 0,
        prev_id: 0,
        prev_level: 0,
        prev_sub_level: 0,
        name: u32::MAX,
        desc: u32::MAX,
        desc_params: u32::MAX,
        enchant_name: u32::MAX,
        enchant_name_params: u32::MAX,
        enchant_desc: u32::MAX,
        enchant_desc_params: u32::MAX,
    }
}

/// The name record of a level record.
pub open spec fn name_of(names: Map<u64, SkillNameDat>, v: SkillGrpDatView) -> SkillNameDat {
    let k = name_key(v.id as u32, v.level as i16, v.sub_level);
    if names.contains_key(k) {
        names[k]
    } else {
        default_name()
    }
}

/// Looks up the name record of a level record.
pub fn name_record_or_default(names: &HashMap<u64, SkillNameDat>, v: &SkillGrpDat) -> (r: SkillNameDat)
    ensures
        r == name_of(names@, v@),
{
    let k = name_key_of(v.id as u32, v.level as i16, v.sub_level);
    match names.get(&k) {
        Some(n) => *n,
        None => SkillNameDat {
            id: 0,
            level: 0,
            sub_level: 0,
            prev_id: 0,
            prev_level: 0,
            prev_sub_level: 0,
            name: u32::MAX,
            desc: u32::MAX,
            desc_params: u32::MAX,
            enchant_name: u32::MAX,
            enchant_name_params: u32::MAX,
            enchant_desc: u32::MAX,
            enchant_desc_params: u32::MAX,
        },
    }
}

/// The texts of a dictionary.
pub open spec fn dict_view(d: Map<u32, String>) -> Map<u32, Seq<char>> {
    d.map_values(|s: String| s@)
}

fn dict_text(dict: &HashMap<u32, String>, k: u32) -> (r: String)
    requires
        dict@.contains_key(k),
    ensures
        r@ == dict_view(dict@)[k],
{
    match dict.get(&k) {
        Some(s) => s.clone(),
        None => {
            proof {
                assert(false);
            }
            String::new()
        },
    }
}

// ------------------------------------------------------------------------------------------
// Levels and enchant routes
// ------------------------------------------------------------------------------------------

/// The enchant route of an enchant sub-level: its thousands, rounded towards zero.
pub open spec fn variant_of(sub: i16) -> int {
    if sub >= 0 {
        sub / 1000
    } else {
        -((-sub) / 1000)
    }
}

/// An icon of a level: none where it is the skill's own icon.
pub open spec fn icon_of(icon: u32, first_icon: u32, gdn: Seq<Seq<char>>) -> Option<Seq<char>> {
    if icon == first_icon {
        None
    } else {
        Some(gdn[icon as int])
    }
}

/// A level's description: none where it is the skill's, or empty, or "\0".
pub open spec fn level_description(n: SkillNameDat, fname: SkillNameDat, d: Map<u32, Seq<char>>) -> Option<Seq<char>> {
    if n.desc == fname.desc {
        None
    } else if d[n.desc].len() == 0 || d[n.desc] == seq!['\0'] {
        None
    } else {
        Some(d[n.desc])
    }
}

/// An enchant route's description: none where it is the skill's, or empty.
pub open spec fn enchant_description(n: SkillNameDat, fname: SkillNameDat, d: Map<u32, Seq<char>>) -> Option<Seq<char>> {
    if n.desc == fname.desc {
        None
    } else if d[n.desc].len() == 0 {
        None
    } else {
        Some(d[n.desc])
    }
}

/// The level that a level record describes, without its enchant routes.
pub open spec fn level_from_record(
    v: SkillGrpDatView,
    first: SkillGrpDatView,
    n: SkillNameDat,
    fname: SkillNameDat,
    d: Map<u32, Seq<char>>,
    gdn: Seq<Seq<char>>,
) -> SkillLevelInfoView {
    SkillLevelInfoView {
        level: v.level as u32,
        description_params: d[n.desc_params],
        mp_cost: v.mp_consume,
        hp_cost: v.hp_consume,
        cast_range: v.cast_range,
        hit_time: v.hit_time,
        cool_time: v.cool_time,
        reuse_delay: v.reuse_delay,
        effect_point: v.effect_point,
        icon: icon_of(v.icon, first.icon, gdn),
        icon_panel: icon_of(v.icon_panel, first.icon_panel, gdn),
        description: level_description(n, fname, d),
        available_enchants: seq![],
    }
}

/// The enchant level that an enchant record describes.
pub open spec fn enchant_level_from_record(
    v: SkillGrpDatView,
    first: SkillGrpDatView,
    n: SkillNameDat,
    d: Map<u32, Seq<char>>,
    gdn: Seq<Seq<char>>,
) -> EnchantLevelInfoView {
    EnchantLevelInfoView {
        level: ((v.sub_level as u32) as int - variant_of(v.sub_level) * 1000) as u32,
        skill_description_params: d[n.desc_params],
        enchant_name_params: d[n.enchant_name_params],
        enchant_description_params: d[n.enchant_desc_params],
        mp_cost: v.mp_consume,
        hp_cost: v.hp_consume,
        cast_range: v.cast_range,
        hit_time: v.hit_time,
        cool_time: v.cool_time,
        reuse_delay: v.reuse_delay,
        effect_point: v.effect_point,
        icon: icon_of(v.icon, first.icon, gdn),
        icon_panel: icon_of(v.icon_panel, first.icon_panel, gdn),
    }
}

/// Whether a record is an enchant level of route `variant` of level `level`.
pub open spec fn in_group(v: SkillGrpDatView, level: u8, variant: int) -> bool {
    v.sub_level != 0 && v.level == level && variant_of(v.sub_level) == variant
}

/// The enchant records of route `variant` of level `level`, in order.
pub open spec fn group_records(s: Seq<SkillGrpDatView>, level: u8, variant: int) -> Seq<SkillGrpDatView>
    decreases s.len(),
{
    if s.len() == 0 {
        s
    } else {
        let p = group_records(s.drop_last(), level, variant);
        if in_group(s.last(), level, variant) {
            p.push(s.last())
        } else {
            p
        }
    }
}

/// The enchant levels of a run of enchant records.
pub open spec fn enchant_levels_from(
    s: Seq<SkillGrpDatView>,
    first: SkillGrpDatView,
    names: Map<u64, SkillNameDat>,
    d: Map<u32, Seq<char>>,
    gdn: Seq<Seq<char>>,
) -> Seq<EnchantLevelInfoView>
    decreases s.len(),
{
    if s.len() == 0 {
        seq![]
    } else {
        enchant_levels_from(s.drop_last(), first, names, d, gdn).push(
            enchant_level_from_record(s.last(), first, name_of(names, s.last()), d, gdn),
        )
    }
}

/// The enchant route that a non-empty run of its records describes: the first
/// record gives the route's own fields.
pub open spec fn enchant_from_group(
    recs: Seq<SkillGrpDatView>,
    first: SkillGrpDatView,
    fname: SkillNameDat,
    names: Map<u64, SkillNameDat>,
    d: Map<u32, Seq<char>>,
    gdn: Seq<Seq<char>>,
) -> EnchantInfoView {
    let h = recs[0];
    let hn = name_of(names, h);
    EnchantInfoView {
        enchant_type: variant_of(h.sub_level) as u32,
        skill_description: enchant_description(hn, fname, d),
        enchant_name: d[hn.enchant_name],
        enchant_icon: gdn[h.enchant_icon as int],
        enchant_description: d[hn.enchant_desc],
        is_debuff: h.debuff == 1,
        enchant_levels: enchant_levels_from(recs, first, names, d, gdn),
    }
}

/// The enchant routes of level `level` with a type below `upto`, in ascending order
/// of type.
pub open spec fn enchants_upto(
    all: Seq<SkillGrpDatView>,
    level: u8,
    upto: int,
    first: SkillGrpDatView,
    fname: SkillNameDat,
    names: Map<u64, SkillNameDat>,
    d: Map<u32, Seq<char>>,
    gdn: Seq<Seq<char>>,
) -> Seq<EnchantInfoView>
    decreases upto,
{
    if upto <= 0 {
        seq![]
    } else {
        let prev = enchants_upto(all, level, upto - 1, first, fname, names, d, gdn);
        let g = group_records(all, level, upto - 1);
        if g.len() > 0 {
            prev.push(enchant_from_group(g, first, fname, names, d, gdn))
        } else {
            prev
        }
    }
}

/// Enchant routes have a type of at most 32: sub-levels are 16-bit numbers.
pub open spec fn MAX_VARIANTS() -> int {
    33
}

/// The enchant routes of the level at position `key - 1`.
pub open spec fn enchants_for_key(
    all: Seq<SkillGrpDatView>,
    key: int,
    first: SkillGrpDatView,
    fname: SkillNameDat,
    names: Map<u64, SkillNameDat>,
    d: Map<u32, Seq<char>>,
    gdn: Seq<Seq<char>>,
) -> Seq<EnchantInfoView> {
    if 1 <= key <= 255 {
        enchants_upto(all, key as u8, MAX_VARIANTS(), first, fname, names, d, gdn)
    } else {
        seq![]
    }
}

/// The levels that the level records (sub-level 0) of `s` describe, in order; the
/// level at position `p` carries the enchant routes of level number `p + 1`.
pub open spec fn levels_from(
    s: Seq<SkillGrpDatView>,
    all: Seq<SkillGrpDatView>,
    first: SkillGrpDatView,
    fname: SkillNameDat,
    names: Map<u64, SkillNameDat>,
    d: Map<u32, Seq<char>>,
    gdn: Seq<Seq<char>>,
) -> Seq<SkillLevelInfoView>
    decreases s.len(),
{
    if s.len() == 0 {
        seq![]
    } else {
        let prev = levels_from(s.drop_last(), all, first, fname, names, d, gdn);
        let v = s.last();
        if v.sub_level == 0 {
            prev.push(
                SkillLevelInfoView {
                    available_enchants: enchants_for_key(all, (prev.len() + 1) as int, first, fname, names, d, gdn),
                    ..level_from_record(v, first, name_of(names, v), fname, d, gdn)
                },
            )
        } else {
            prev
        }
    }
}

/// Number of level records (sub-level 0).
pub open spec fn level_record_count(s: Seq<SkillGrpDatView>) -> nat
    decreases s.len(),
{
    if s.len() == 0 {
        0
    } else {
        level_record_count(s.drop_last()) + if s.last().sub_level == 0 {
            1nat
        } else {
            0nat
        }
    }
}

pub proof fn lemma_levels_from_len(
    s: Seq<SkillGrpDatView>,
    all: Seq<SkillGrpDatView>,
    first: SkillGrpDatView,
    fname: SkillNameDat,
    names: Map<u64, SkillNameDat>,
    d: Map<u32, Seq<char>>,
    gdn: Seq<Seq<char>>,
)
    ensures
        levels_from(s, all, first, fname, names, d, gdn).len() == level_record_count(s),
    decreases s.len(),
{
    if s.len() > 0 {
        lemma_levels_from_len(s.drop_last(), all, first, fname, names, d, gdn);
    }
}

/// Whether record `i` is the first of its enchant route.
pub open spec fn is_group_head(all: Seq<SkillGrpDatView>, i: int) -> bool {
    forall|j: int| 0 <= j < i ==> !in_group(all[j], all[i].level, variant_of(all[i].sub_level))
}

/// Whether the records of one skill can be read: every text and name number that
/// reading looks up is there, enchant sub-levels are above -1000, and every enchant
/// record belongs to an existing level.
pub open spec fn records_readable(
    all: Seq<SkillGrpDatView>,
    names: Map<u64, SkillNameDat>,
    d: Map<u32, Seq<char>>,
    gdn_len: nat,
) -> bool {
    &&& all.len() > 0
    &&& ({
        let first = all[0];
        let fname = name_of(names, first);
        &&& d.contains_key(fname.name)
        &&& d.contains_key(fname.desc)
        &&& first.icon < gdn_len
        &&& first.icon_panel < gdn_len
        &&& forall|k: int| 0 <= k < first.animation.len() ==> (#[trigger] first.animation[k]) < gdn_len
        &&& all_readable(all, first, fname, names, d, gdn_len)
        &&& level_record_count(all) > 0 ==> forall|i: int|
            0 <= i < all.len() && (#[trigger] all[i]).sub_level != 0 ==> 1 <= all[i].level <= level_record_count(all)
    })
}

/// Whether one record can be read; `head` tells whether it starts its enchant route.
pub open spec fn record_readable(
    v: SkillGrpDatView,
    first: SkillGrpDatView,
    fname: SkillNameDat,
    n: SkillNameDat,
    d: Map<u32, Seq<char>>,
    gdn_len: nat,
    head: bool,
) -> bool {
    &&& d.contains_key(n.desc_params)
    &&& v.icon != first.icon ==> v.icon < gdn_len
    &&& v.icon_panel != first.icon_panel ==> v.icon_panel < gdn_len
    &&& if v.sub_level == 0 {
        n.desc != fname.desc ==> d.contains_key(n.desc)
    } else {
        &&& v.sub_level > -1000
        &&& d.contains_key(n.enchant_name_params)
        &&& d.contains_key(n.enchant_desc_params)
        &&& head ==> {
            &&& n.desc != fname.desc ==> d.contains_key(n.desc)
            &&& d.contains_key(n.enchant_name)
            &&& d.contains_key(n.enchant_desc)
            &&& v.enchant_icon < gdn_len
        }
    }
}

/// The values of a run of `skillgrp.dat` records.
pub open spec fn grp_views(s: Seq<SkillGrpDat>) -> Seq<SkillGrpDatView> {
    s.map_values(|g: SkillGrpDat| g@)
}

/// The skill that the records of one skill describe, with the sound records chosen
/// for it; `all[0]` gives the skill's own fields.
pub open spec fn skill_from(
    all: Seq<SkillGrpDatView>,
    names: Map<u64, SkillNameDat>,
    d: Map<u32, Seq<char>>,
    sound: SkillSoundDat,
    source: SkillSoundSourceDat,
    gdn: Seq<Seq<char>>,
) -> SkillView {
    let first = all[0];
    let fname = name_of(names, first);
    SkillView {
        id: SkillId(first.id as u32),
        name: d[fname.name],
        description: d[fname.desc],
        skill_type: first.skill_type,
        resist_cast: first.resist_cast,
        magic_type: first.magic_type,
        cast_style: first.cast_style,
        skill_magic_type: first.skill_magic_type,
        origin_skill: SkillId(first.origin_skill as u32),
        is_double: first.is_double == 1,
        animations: first.animation.map_values(|a: u32| uppercase(gdn[a as int])),
        visual_effect: VisualEffectId(first.skill_visual_effect),
        icon: gdn[first.icon as int],
        icon_panel: gdn[first.icon_panel as int],
        cast_bar_text_is_red: first.cast_bar_text_is_red == 1,
        rumble_self: first.rumble_self,
        rumble_target: first.rumble_target,
        skill_levels: levels_from(all, all, first, fname, names, d, gdn),
        is_debuff: first.debuff == 1,
        sound_info: sound_info_from(sound, source, gdn),
    }
}

pub proof fn lemma_group_empty(s: Seq<SkillGrpDatView>, level: u8, variant: int)
    ensures
        group_records(s, level, variant).len() == 0 <==> forall|j: int|
            0 <= j < s.len() ==> !in_group(#[trigger] s[j], level, variant),
    decreases s.len(),
{
    if s.len() > 0 {
        lemma_group_empty(s.drop_last(), level, variant);
        assert forall|j: int| 0 <= j < s.len() - 1 implies s.drop_last()[j] == s[j] by {}
        if group_records(s, level, variant).len() == 0 {
            assert forall|j: int| 0 <= j < s.len() implies !in_group(#[trigger] s[j], level, variant) by {
                if j < s.len() - 1 {
                    assert(s.drop_last()[j] == s[j]);
                }
            }
        }
    }
}

fn variant_num(sub: i16) -> (r: i16)
    ensures
        r as int == variant_of(sub),
{
    if sub >= 0 {
        let u = sub as u16;
        (u / 1000) as i16
    } else {
        let p: i32 = -(sub as i32);
        let q = p / 1000;
        assert(q <= 32) by (nonlinear_arith)
            requires
                p <= 32768,
                q == p / 1000,
        ;
        -(q as i16)
    }
}

fn enchant_level_num(sub: i16, variant: i16) -> (r: u32)
    requires
        sub > -1000,
        variant as int == variant_of(sub),
    ensures
        r == ((sub as u32) as int - variant_of(sub) * 1000) as u32,
{
    let s32 = #[verifier::truncate] (sub as u32);
    if sub >= 0 {
        assert(s32 == sub);
        let v = variant as u32;
        assert(v * 1000 <= s32) by (nonlinear_arith)
            requires
                v == s32 / 1000,
        ;
        s32 - v * 1000
    } else {
        assert(variant == 0);
        s32
    }
}

fn icon_text(gdn: &L2GeneralStringTable, icon: u32, first_icon: u32) -> (r: Option<String>)
    requires
        icon != first_icon ==> icon < gdn@.len(),
    ensures
        opt_view(r) == icon_of(icon, first_icon, gdn@),
{
    if icon == first_icon {
        None
    } else {
        Some(gdn.index(icon).clone())
    }
}

fn description_text(
    dict: &HashMap<u32, String>,
    n: &SkillNameDat,
    fname: &SkillNameDat,
    nul_is_empty: bool,
) -> (r: Option<String>)
    requires
        n.desc != fname.desc ==> dict@.contains_key(n.desc),
    ensures
        nul_is_empty ==> opt_view(r) == level_description(*n, *fname, dict_view(dict@)),
        !nul_is_empty ==> opt_view(r) == enchant_description(*n, *fname, dict_view(dict@)),
{
    if n.desc == fname.desc {
        None
    } else {
        let c = dict_text(dict, n.desc);
        let len = c.as_str().unicode_len();
        if len == 0 {
            None
        } else if nul_is_empty && len == 1 && c.as_str().get_char(0) == '\0' {
            proof {
                assert(c@ =~= seq!['\0']);
            }
            None
        } else {
            proof {
                if nul_is_empty {
                    assert(c@ != seq!['\0']) by {
                        if c@ == seq!['\0'] {
                            assert(c@[0] == '\0');
                        }
                    }
                }
            }
            Some(c)
        }
    }
}

fn level_info(
    gdn: &L2GeneralStringTable,
    dict: &HashMap<u32, String>,
    first: &SkillGrpDat,
    fname: &SkillNameDat,
    v: &SkillGrpDat,
    n: &SkillNameDat,
) -> (r: SkillLevelInfo)
    requires
        v.sub_level == 0,
        record_readable(v@, first@, *fname, *n, dict_view(dict@), gdn@.len(), false),
    ensures
        r@ == level_from_record(v@, first@, *n, *fname, dict_view(dict@), gdn@),
{
    let r = SkillLevelInfo {
        level: v.level as u32,
        description_params: dict_text(dict, n.desc_params),
        mp_cost: v.mp_consume,
        hp_cost: v.hp_consume,
        cast_range: v.cast_range,
        hit_time: v.hit_time,
        cool_time: v.cool_time,
        reuse_delay: v.reuse_delay,
        effect_point: v.effect_point,
        icon: icon_text(gdn, v.icon, first.icon),
        icon_panel: icon_text(gdn, v.icon_panel, first.icon_panel),
        description: description_text(dict, n, fname, true),
        available_enchants: Vec::new(),
    };
    proof {
        assert(r@.available_enchants =~= seq![]);
    }
    r
}

fn enchant_level_info(
    gdn: &L2GeneralStringTable,
    dict: &HashMap<u32, String>,
    first: &SkillGrpDat,
    fname: &SkillNameDat,
    v: &SkillGrpDat,
    n: &SkillNameDat,
    head: Ghost<bool>,
) -> (r: EnchantLevelInfo)
    requires
        v.sub_level != 0,
        record_readable(v@, first@, *fname, *n, dict_view(dict@), gdn@.len(), head@),
    ensures
        r@ == enchant_level_from_record(v@, first@, *n, dict_view(dict@), gdn@),
{
    let variant = variant_num(v.sub_level);
    EnchantLevelInfo {
        level: enchant_level_num(v.sub_level, variant),
        skill_description_params: dict_text(dict, n.desc_params),
        enchant_name_params: dict_text(dict, n.enchant_name_params),
        enchant_description_params: dict_text(dict, n.enchant_desc_params),
        mp_cost: v.mp_consume,
        hp_cost: v.hp_consume,
        cast_range: v.cast_range,
        hit_time: v.hit_time,
        cool_time: v.cool_time,
        reuse_delay: v.reuse_delay,
        effect_point: v.effect_point,
        icon: icon_text(gdn, v.icon, first.icon),
        icon_panel: icon_text(gdn, v.icon_panel, first.icon_panel),
    }
}

/// Whether every record of `all` can be read, `first` and `fname` being those of the
/// skill's first record.
pub open spec fn all_readable(
    all: Seq<SkillGrpDatView>,
    first: SkillGrpDatView,
    fname: SkillNameDat,
    names: Map<u64, SkillNameDat>,
    d: Map<u32, Seq<char>>,
    gdn_len: nat,
) -> bool {
    forall|i: int|
        0 <= i < all.len() ==> record_readable(
            #[trigger] all[i],
            first,
            fname,
            name_of(names, all[i]),
            d,
            gdn_len,
            is_group_head(all, i),
        )
}

fn enchant_route(
    gdn: &L2GeneralStringTable,
    grps: &Vec<SkillGrpDat>,
    names: &HashMap<u64, SkillNameDat>,
    dict: &HashMap<u32, String>,
    fname: &SkillNameDat,
    level: u8,
    variant: i16,
) -> (r: Option<EnchantInfo>)
    requires
        grps@.len() > 0,
        *fname == name_of(names@, grps@[0]@),
        all_readable(grp_views(grps@), grps@[0]@, *fname, names@, dict_view(dict@), gdn@.len()),
    ensures
        ({
            let all = grp_views(grps@);
            let g = group_records(all, level, variant as int);
            &&& r is Some <==> g.len() > 0
            &&& r is Some ==> r.unwrap()@ == enchant_from_group(g, all[0], *fname, names@, dict_view(dict@), gdn@)
        }),
{
    let ghost all = grp_views(grps@);
    let ghost d = dict_view(dict@);
    let first = &grps[0];
    let mut info: Option<EnchantInfo> = None;
    let mut i: usize = 0;
    while i < grps.len()
        invariant
            i <= grps@.len(),
            all == grp_views(grps@),
            d == dict_view(dict@),
            first == grps@[0],
            *fname == name_of(names@, all[0]),
            all_readable(all, all[0], *fname, names@, d, gdn@.len()),
            ({
                let g = group_records(all.take(i as int), level, variant as int);
                &&& info is Some <==> g.len() > 0
                &&& info is Some ==> info.unwrap()@ == enchant_from_group(g, all[0], *fname, names@, d, gdn@)
            }),
        decreases grps@.len() - i,
    {
        let v = &grps[i];
        proof {
            assert(all.take(i + 1).drop_last() =~= all.take(i as int));
            assert(all.take(i + 1).last() == all[i as int]);
            assert(all[i as int] == v@);
        }
        let vt = variant_num(v.sub_level);
        if v.sub_level != 0 && v.level == level && vt == variant {
            let n = name_record_or_default(names, v);
            proof {
                assert(record_readable(all[i as int], all[0], *fname, n, d, gdn@.len(), is_group_head(all, i as int)));
            }
            let el = enchant_level_info(gdn, dict, first, fname, v, &n, Ghost(is_group_head(all, i as int)));
            let ghost g0 = group_records(all.take(i as int), level, variant as int);
            let ghost g1 = group_records(all.take(i + 1), level, variant as int);
            assert(g1 == g0.push(v@));
            info = match info {
                None => {
                    proof {
                        lemma_group_empty(all.take(i as int), level, variant as int);
                        assert forall|j: int| 0 <= j < i implies !in_group(
                            #[trigger] all[j],
                            all[i as int].level,
                            variant_of(all[i as int].sub_level),
                        ) by {
                            assert(all.take(i as int)[j] == all[j]);
                        }
                        assert(is_group_head(all, i as int));
                    }
                    let e = EnchantInfo {
                        enchant_type: vt as u32,
                        skill_description: description_text(dict, &n, fname, false),
                        enchant_name: dict_text(dict, n.enchant_name),
                        enchant_icon: gdn.index(v.enchant_icon).clone(),
                        enchant_description: dict_text(dict, n.enchant_desc),
                        is_debuff: v.debuff == 1,
                        enchant_levels: vec![el],
                    };
                    proof {
                        assert(g1 =~= seq![v@]);
                        assert(enchant_levels_from(seq![v@], all[0], names@, d, gdn@) =~= seq![el@]) by {
                            reveal_with_fuel(enchant_levels_from, 2);
                            assert(seq![v@].drop_last() =~= Seq::<SkillGrpDatView>::empty());
                            assert(seq![v@].last() == v@);
                        }
                        assert(e@.enchant_levels =~= seq![el@]);
                    }
                    Some(e)
                },
                Some(mut e) => {
                    let ghost before = e@;
                    e.enchant_levels.push(el);
                    proof {
                        assert(g1.drop_last() =~= g0);
                        assert(g1[0] == g0[0]);
                        assert(e@.enchant_levels =~= before.enchant_levels.push(el@));
                    }
                    Some(e)
                },
            };
        } else {
            proof {
                assert(!in_group(v@, level, variant as int));
            }
        }
        i += 1;
    }
    proof {
        assert(all.take(grps@.len() as int) =~= all);
    }
    info
}

fn level_enchants(
    gdn: &L2GeneralStringTable,
    grps: &Vec<SkillGrpDat>,
    names: &HashMap<u64, SkillNameDat>,
    dict: &HashMap<u32, String>,
    fname: &SkillNameDat,
    level: u8,
) -> (r: Vec<EnchantInfo>)
    requires
        grps@.len() > 0,
        *fname == name_of(names@, grps@[0]@),
        all_readable(grp_views(grps@), grps@[0]@, *fname, names@, dict_view(dict@), gdn@.len()),
    ensures
        r@.map_values(|e: EnchantInfo| e@) == enchants_upto(
            grp_views(grps@),
            level,
            MAX_VARIANTS(),
            grps@[0]@,
            *fname,
            names@,
            dict_view(dict@),
            gdn@,
        ),
{
    let ghost all = grp_views(grps@);
    let ghost d = dict_view(dict@);
    let mut r: Vec<EnchantInfo> = Vec::new();
    let mut variant: i16 = 0;
    proof {
        assert(r@.map_values(|e: EnchantInfo| e@) =~= seq![]);
    }
    while variant < 33
        invariant
            0 <= variant <= 33,
            all == grp_views(grps@),
            d == dict_view(dict@),
            grps@.len() > 0,
            *fname == name_of(names@, grps@[0]@),
            all_readable(all, grps@[0]@, *fname, names@, d, gdn@.len()),
            r@.map_values(|e: EnchantInfo| e@) == enchants_upto(all, level, variant as int, all[0], *fname, names@, d, gdn@),
        decreases 33 - variant,
    {
        let ghost before = r@.map_values(|e: EnchantInfo| e@);
        match enchant_route(gdn, grps, names, dict, fname, level, variant) {
            Some(e) => {
                r.push(e);
                proof {
                    assert(r@.map_values(|e: EnchantInfo| e@) =~= before.push(e@));
                }
            },
            None => {},
        }
        variant += 1;
    }
    r
}

fn skill_levels(
    gdn: &L2GeneralStringTable,
    grps: &Vec<SkillGrpDat>,
    names: &HashMap<u64, SkillNameDat>,
    dict: &HashMap<u32, String>,
    fname: &SkillNameDat,
) -> (r: Vec<SkillLevelInfo>)
    requires
        grps@.len() > 0,
        *fname == name_of(names@, grps@[0]@),
        all_readable(grp_views(grps@), grps@[0]@, *fname, names@, dict_view(dict@), gdn@.len()),
    ensures
        r@.map_values(|l: SkillLevelInfo| l@) == levels_from(
            grp_views(grps@),
            grp_views(grps@),
            grps@[0]@,
            *fname,
            names@,
            dict_view(dict@),
            gdn@,
        ),
{
    let ghost all = grp_views(grps@);
    let ghost d = dict_view(dict@);
    let first = &grps[0];
    let mut levels: Vec<SkillLevelInfo> = Vec::new();
    let mut i: usize = 0;
    proof {
        assert(all.take(0) =~= Seq::<SkillGrpDatView>::empty());
        assert(levels@.map_values(|l: SkillLevelInfo| l@) =~= seq![]);
    }
    while i < grps.len()
        invariant
            i <= grps@.len(),
            all == grp_views(grps@),
            d == dict_view(dict@),
            first == grps@[0],
            *fname == name_of(names@, all[0]),
            all_readable(all, all[0], *fname, names@, d, gdn@.len()),
            levels@.map_values(|l: SkillLevelInfo| l@) == levels_from(all.take(i as int), all, all[0], *fname, names@, d, gdn@),
        decreases grps@.len() - i,
    {
        let v = &grps[i];
        let ghost before = levels@.map_values(|l: SkillLevelInfo| l@);
        proof {
            assert(all.take(i + 1).drop_last() =~= all.take(i as int));
            assert(all.take(i + 1).last() == all[i as int]);
            assert(all[i as int] == v@);
        }
        if v.sub_level == 0 {
            let n = name_record_or_default(names, v);
            proof {
                assert(record_readable(all[i as int], all[0], *fname, n, d, gdn@.len(), is_group_head(all, i as int)));
                lemma_levels_from_len(all.take(i as int), all, all[0], *fname, names@, d, gdn@);
            }
            let mut lv = level_info(gdn, dict, first, fname, v, &n);
            if levels.len() < 255 {
                lv.available_enchants = level_enchants(gdn, grps, names, dict, fname, (levels.len() + 1) as u8);
            } else {
                proof {
                    assert(lv@.available_enchants =~= seq![]);
                }
            }
            levels.push(lv);
            proof {
                assert(levels@.map_values(|l: SkillLevelInfo| l@) =~= before.push(lv@));
            }
        }
        i += 1;
    }
    proof {
        assert(all.take(grps@.len() as int) =~= all);
    }
    levels
}

fn animation_names(gdn: &L2GeneralStringTable, anims: &Vec<u32>) -> (r: Vec<String>)
    requires
        forall|k: int| 0 <= k < anims@.len() ==> (#[trigger] anims@[k]) < gdn@.len(),
    ensures
        r@.map_values(|a: String| a@) == anims@.map_values(|a: u32| uppercase(gdn@[a as int])),
{
    let mut r: Vec<String> = Vec::new();
    let mut k: usize = 0;
    while k < anims.len()
        invariant
            k <= anims@.len(),
            forall|j: int| 0 <= j < anims@.len() ==> (#[trigger] anims@[j]) < gdn@.len(),
            r@.map_values(|a: String| a@) =~= anims@.take(k as int).map_values(|a: u32| uppercase(gdn@[a as int])),
        decreases anims@.len() - k,
    {
        let a = anims[k];
        let ghost before = r@.map_values(|a: String| a@);
        let u = to_uppercase(gdn.index(a).as_str());
        r.push(u);
        proof {
            assert(r@.map_values(|a: String| a@) =~= before.push(u@));
            assert(anims@.take(k + 1).drop_last() =~= anims@.take(k as int));
            assert(anims@.take(k + 1).last() == a);
        }
        k += 1;
    }
    proof {
        assert(anims@.take(k as int) =~= anims@);
    }
    r
}

/// Reads one skill from its records: `None` where no record is a level (sub-level 0),
/// else the skill that `skill_from` describes.
pub fn skill_from_records(
    gdn: &L2GeneralStringTable,
    grps: &Vec<SkillGrpDat>,
    names: &HashMap<u64, SkillNameDat>,
    dict: &HashMap<u32, String>,
    sound: &SkillSoundDat,
    source: &SkillSoundSourceDat,
) -> (r: Option<Skill>)
    requires
        records_readable(grp_views(grps@), names@, dict_view(dict@), gdn@.len()),
        sound_refs_valid(*sound, gdn@.len()),
    ensures
        r is None <==> level_record_count(grp_views(grps@)) == 0,
        r is Some ==> r.unwrap()@ == skill_from(grp_views(grps@), names@, dict_view(dict@), *sound, *source, gdn@),
{
    let ghost all = grp_views(grps@);
    let first = &grps[0];
    proof {
        assert(all[0] == first@);
        assert forall|k: int| 0 <= k < first.animation@.len() implies (#[trigger] first.animation@[k]) < gdn@.len() by {
            assert(all[0].animation[k] == first.animation@[k]);
        }
    }
    let fname = name_record_or_default(names, first);
    let levels = skill_levels(gdn, grps, names, dict, &fname);
    proof {
        lemma_levels_from_len(all, all, all[0], fname, names@, dict_view(dict@), gdn@);
    }
    if levels.len() == 0 {
        return None;
    }
    let skill = Skill {
        id: SkillId(first.id as u32),
        name: dict_text(dict, fname.name),
        description: dict_text(dict, fname.desc),
        skill_type: first.skill_type,
        resist_cast: first.resist_cast,
        magic_type: first.magic_type,
        cast_style: first.cast_style,
        skill_magic_type: first.skill_magic_type,
        origin_skill: SkillId(#[verifier::truncate] (first.origin_skill as u32)),
        is_double: first.is_double == 1,
        animations: animation_names(gdn, &first.animation),
        visual_effect: VisualEffectId(first.skill_visual_effect),
        icon: gdn.index(first.icon).clone(),
        icon_panel: gdn.index(first.icon_panel).clone(),
        cast_bar_text_is_red: first.cast_bar_text_is_red == 1,
        rumble_self: first.rumble_self,
        rumble_target: first.rumble_target,
        skill_levels: levels,
        is_debuff: first.debuff == 1,
        sound_info: sound_info_from_records(gdn, sound, source),
    };
    Some(skill)
}

// ------------------------------------------------------------------------------------------
// The lookup tables of the skill files
// ------------------------------------------------------------------------------------------

/// The sound records by skill id; a later record replaces an earlier one.
pub open spec fn sounds_by_id(s: Seq<SkillSoundDat>) -> Map<u32, SkillSoundDat>
    decreases s.len(),
{
    if s.len() == 0 {
        Map::empty()
    } else {
        sounds_by_id(s.drop_last()).insert(s.last().id, s.last())
    }
}

/// The sound-source records by skill id; a later record replaces an earlier one.
pub open spec fn sources_by_id(s: Seq<SkillSoundSourceDat>) -> Map<u32, SkillSoundSourceDat>
    decreases s.len(),
{
    if s.len() == 0 {
        Map::empty()
    } else {
        sources_by_id(s.drop_last()).insert(s.last().id, s.last())
    }
}

/// The name records by the key of their skill level; a later record replaces an
/// earlier one.
pub open spec fn names_by_key(s: Seq<SkillNameDat>) -> Map<u64, SkillNameDat>
    decreases s.len(),
{
    if s.len() == 0 {
        Map::empty()
    } else {
        names_by_key(s.drop_last()).insert(name_key(s.last().id, s.last().level, s.last().sub_level), s.last())
    }
}

/// The texts of the table at the head of `skillname-ru.dat` by number; a later
/// record replaces an earlier one.
pub open spec fn texts_by_id(s: Seq<SkillNameTableRecord>) -> Map<u32, Seq<char>>
    decreases s.len(),
{
    if s.len() == 0 {
        Map::empty()
    } else {
        texts_by_id(s.drop_last()).insert(s.last().id, s.last().val@)
    }
}

/// The sound record of skill `id`: the zero record where there is none.
pub open spec fn sound_for(m: Map<u32, SkillSoundDat>, id: u32) -> SkillSoundDat {
    if m.contains_key(id) {
        m[id]
    } else {
        default_sound()
    }
}

/// The sound-source record of skill `id`: the zero record where there is none.
pub open spec fn source_for(m: Map<u32, SkillSoundSourceDat>, id: u32) -> SkillSoundSourceDat {
    if m.contains_key(id) {
        m[id]
    } else {
        default_source()
    }
}

/// The sound records of `skillsoundgrp.dat` by skill id.
pub fn sound_map(recs: &Vec<SkillSoundDat>) -> (r: HashMap<u32, SkillSoundDat>)
    ensures
        r@ == sounds_by_id(recs@),
{
    let mut r: HashMap<u32, SkillSoundDat> = HashMap::new();
    let mut i: usize = 0;
    while i < recs.len()
        invariant
            i <= recs@.len(),
            r@ == sounds_by_id(recs@.take(i as int)),
        decreases recs@.len() - i,
    {
        let v = recs[i];
        r.insert(v.id, v);
        proof {
            assert(recs@.take(i + 1).drop_last() =~= recs@.take(i as int));
        }
        i += 1;
    }
    proof {
        assert(recs@.take(recs@.len() as int) =~= recs@);
    }
    r
}

/// The sound-source records of `skillsoundsource.dat` by skill id.
pub fn source_map(recs: &Vec<SkillSoundSourceDat>) -> (r: HashMap<u32, SkillSoundSourceDat>)
    ensures
        r@ == sources_by_id(recs@),
{
    let mut r: HashMap<u32, SkillSoundSourceDat> = HashMap::new();
    let mut i: usize = 0;
    while i < recs.len()
        invariant
            i <= recs@.len(),
            r@ == sources_by_id(recs@.take(i as int)),
        decreases recs@.len() - i,
    {
        let v = recs[i];
        r.insert(v.id, v);
        proof {
            assert(recs@.take(i + 1).drop_last() =~= recs@.take(i as int));
        }
        i += 1;
    }
    proof {
        assert(recs@.take(recs@.len() as int) =~= recs@);
    }
    r
}

/// The name records of `skillname-ru.dat` by the key of their skill level.
pub fn name_map(recs: &Vec<SkillNameDat>) -> (r: HashMap<u64, SkillNameDat>)
    ensures
        r@ == names_by_key(recs@),
{
    let mut r: HashMap<u64, SkillNameDat> = HashMap::new();
    let mut i: usize = 0;
    while i < recs.len()
        invariant
            i <= recs@.len(),
            r@ == names_by_key(recs@.take(i as int)),
        decreases recs@.len() - i,
    {
        let v = recs[i];
        r.insert(name_key_of(v.id, v.level, v.sub_level), v);
        proof {
            assert(recs@.take(i + 1).drop_last() =~= recs@.take(i as int));
        }
        i += 1;
    }
    proof {
        assert(recs@.take(recs@.len() as int) =~= recs@);
    }
    r
}

/// The texts of `skillname-ru.dat` by number, with "NOT EXIST" under `u32::MAX`, the
/// number that the zero name record points at.
pub fn string_dict(table: &Vec<SkillNameTableRecord>) -> (r: HashMap<u32, String>)
    ensures
        dict_view(r@) == texts_by_id(table@).insert(u32::MAX, "NOT EXIST"@),
{
    let mut r: HashMap<u32, String> = HashMap::new();
    let mut i: usize = 0;
    proof {
        assert(dict_view(r@) =~= texts_by_id(table@.take(0)));
    }
    while i < table.len()
        invariant
            i <= table@.len(),
            dict_view(r@) == texts_by_id(table@.take(i as int)),
        decreases table@.len() - i,
    {
        let v = &table[i];
        let t = v.val.clone();
        r.insert(v.id, t);
        proof {
            assert(table@.take(i + 1).drop_last() =~= table@.take(i as int));
            assert(dict_view(r@) =~= texts_by_id(table@.take(i + 1)));
        }
        i += 1;
    }
    let nx = "NOT EXIST".to_string();
    r.insert(u32::MAX, nx);
    proof {
        assert(table@.take(table@.len() as int) =~= table@);
        assert(dict_view(r@) =~= texts_by_id(table@).insert(u32::MAX, "NOT EXIST"@));
    }
    r
}

/// The sound record of skill `id`, or the zero record.
pub fn sound_or_default(m: &HashMap<u32, SkillSoundDat>, id: u32) -> (r: SkillSoundDat)
    ensures
        r == sound_for(m@, id),
{
    match m.get(&id) {
        Some(s) => *s,
        None => SkillSoundDat {
            id: 0,
            level: 0,
            effect_sounds: [0u32, 0, 0, 0, 0, 0, 0, 0, 0],
            effect_params: [0u32, 0, 0, 0, 0, 0, 0, 0, 0, 0, 0, 0, 0, 0, 0, 0, 0, 0, 0, 0, 0, 0, 0, 0, 0, 0, 0],
            cast_sounds: [0u32, 0, 0, 0, 0, 0, 0, 0, 0, 0, 0, 0, 0, 0, 0, 0, 0, 0],
            mextra_throw: 0,
            magic_sounds: [0u32, 0, 0, 0, 0, 0, 0, 0, 0, 0, 0, 0, 0, 0, 0, 0, 0, 0],
            fextra_throw: 0,
            cast_volume: 0,
            cast_rad: 0,
        },
    }
}

/// The sound-source record of skill `id`, or the zero record.
pub fn source_or_default(m: &HashMap<u32, SkillSoundSourceDat>, id: u32) -> (r: SkillSoundSourceDat)
    ensures
        r == source_for(m@, id),
{
    match m.get(&id) {
        Some(s) => *s,
        None => SkillSoundSourceDat { id: 0, effects: [0u32, 0, 0, 0, 0, 0, 0, 0, 0] },
    }
}

// ------------------------------------------------------------------------------------------
// Runs of records
// ------------------------------------------------------------------------------------------

/// The records of the skills listed in `ids`, in file order.
pub open spec fn kept_records(s: Seq<SkillGrpDatView>, ids: Set<u32>) -> Seq<SkillGrpDatView>
    decreases s.len(),
{
    if s.len() == 0 {
        s
    } else {
        let p = kept_records(s.drop_last(), ids);
        if ids.contains(s.last().id as u32) {
            p.push(s.last())
        } else {
            p
        }
    }
}

/// The runs of consecutive records that share a skill id, in order.
pub open spec fn skill_runs(recs: Seq<SkillGrpDatView>) -> Seq<Seq<SkillGrpDatView>>
    decreases recs.len(),
{
    if recs.len() == 0 {
        seq![]
    } else {
        let prev = skill_runs(recs.drop_last());
        let v = recs.last();
        if prev.len() > 0 && prev.last().last().id == v.id {
            prev.update(prev.len() - 1, prev.last().push(v))
        } else {
            prev.push(seq![v])
        }
    }
}

/// Every run is non-empty; the last run ends with the last record.
pub proof fn lemma_skill_runs(recs: Seq<SkillGrpDatView>)
    ensures
        recs.len() > 0 ==> skill_runs(recs).len() > 0 && skill_runs(recs).last().len() > 0
            && skill_runs(recs).last().last() == recs.last(),
        recs.len() == 0 ==> skill_runs(recs).len() == 0,
        forall|i: int| 0 <= i < skill_runs(recs).len() ==> (#[trigger] skill_runs(recs)[i]).len() > 0,
    decreases recs.len(),
{
    if recs.len() > 0 {
        lemma_skill_runs(recs.drop_last());
    }
}

/// Whether every run of records can be read into a skill.
pub open spec fn runs_readable(
    runs: Seq<Seq<SkillGrpDatView>>,
    names: Map<u64, SkillNameDat>,
    d: Map<u32, Seq<char>>,
    sounds: Map<u32, SkillSoundDat>,
    gdn_len: nat,
) -> bool {
    forall|i: int|
        0 <= i < runs.len() ==> {
            &&& records_readable(#[trigger] runs[i], names, d, gdn_len)
            &&& sound_refs_valid(sound_for(sounds, runs[i][0].id as u32), gdn_len)
        }
}

/// The skills after each run of records has been read in order; a run without a
/// level record adds nothing, a later skill replaces an earlier one with its id.
pub open spec fn store_skills(
    m: Map<u32, SkillView>,
    runs: Seq<Seq<SkillGrpDatView>>,
    names: Map<u64, SkillNameDat>,
    d: Map<u32, Seq<char>>,
    sounds: Map<u32, SkillSoundDat>,
    sources: Map<u32, SkillSoundSourceDat>,
    gdn: Seq<Seq<char>>,
) -> Map<u32, SkillView>
    decreases runs.len(),
{
    if runs.len() == 0 {
        m
    } else {
        let p = store_skills(m, runs.drop_last(), names, d, sounds, sources, gdn);
        let r = runs.last();
        let id = r[0].id as u32;
        if level_record_count(r) > 0 {
            p.insert(id, skill_from(r, names, d, sound_for(sounds, id), source_for(sources, id), gdn))
        } else {
            p
        }
    }
}

/// The records of the skills listed in `ids`, in file order.
pub fn kept_of(recs: Vec<SkillGrpDat>, ids: &HashSet<u32>) -> (r: Vec<SkillGrpDat>)
    ensures
        grp_views(r@) == kept_records(grp_views(recs@), ids@),
{
    let ghost all = grp_views(recs@);
    let n = recs.len();
    let mut rest = reversed(recs);
    let mut r: Vec<SkillGrpDat> = Vec::new();
    let mut i: usize = 0;
    proof {
        assert(all.take(0) =~= Seq::<SkillGrpDatView>::empty());
        assert(grp_views(r@) =~= seq![]);
        assert forall|j: int| 0 <= j < rest@.len() implies (#[trigger] rest@[j])@ == all[n - 1 - j] by {}
    }
    while rest.len() > 0
        invariant
            i + rest@.len() == n,
            all.len() == n,
            forall|j: int| 0 <= j < rest@.len() ==> (#[trigger] rest@[j])@ == all[n - 1 - j],
            grp_views(r@) == kept_records(all.take(i as int), ids@),
        decreases rest@.len(),
    {
        let ghost before = grp_views(r@);
        let v = rest.pop().unwrap();
        proof {
            assert(v@ == all[i as int]);
            assert(all.take(i + 1).drop_last() =~= all.take(i as int));
            assert(all.take(i + 1).last() == v@);
        }
        let id = v.id as u32;
        if ids.contains(&id) {
            r.push(v);
            proof {
                assert(grp_views(r@) =~= before.push(all[i as int]));
            }
        }
        i += 1;
    }
    proof {
        assert(all.take(n as int) =~= all);
    }
    r
}

/// Splits records into runs of consecutive records that share a skill id.
pub fn group_runs(recs: Vec<SkillGrpDat>) -> (r: Vec<Vec<SkillGrpDat>>)
    ensures
        r@.map_values(|g: Vec<SkillGrpDat>| grp_views(g@)) == skill_runs(grp_views(recs@)),
{
    let ghost all = grp_views(recs@);
    let n = recs.len();
    let mut rest = reversed(recs);
    let mut runs: Vec<Vec<SkillGrpDat>> = Vec::new();
    let mut cur: Vec<SkillGrpDat> = Vec::new();
    let mut cur_id: u16 = 0;
    let mut i: usize = 0;
    proof {
        assert forall|j: int| 0 <= j < rest@.len() implies (#[trigger] rest@[j])@ == all[n - 1 - j] by {}
    }
    while rest.len() > 0
        invariant
            i + rest@.len() == n,
            all.len() == n,
            forall|j: int| 0 <= j < rest@.len() ==> (#[trigger] rest@[j])@ == all[n - 1 - j],
            i == 0 ==> cur@.len() == 0 && runs@.len() == 0,
            i > 0 ==> cur@.len() > 0 && cur_id == cur@.last().id,
            i > 0 ==> skill_runs(all.take(i as int)) == runs@.map_values(|g: Vec<SkillGrpDat>| grp_views(g@)).push(
                grp_views(cur@),
            ),
        decreases rest@.len(),
    {
        let v = rest.pop().unwrap();
        let ghost done = runs@.map_values(|g: Vec<SkillGrpDat>| grp_views(g@));
        let ghost cv = grp_views(cur@);
        let ghost prefix = all.take(i as int);
        let ghost next = all.take(i + 1);
        proof {
            assert(v@ == all[i as int]);
            assert(next.drop_last() =~= prefix);
            assert(next.last() == v@);
            lemma_skill_runs(prefix);
        }
        if i == 0 || v.id != cur_id {
            if i > 0 {
                let mut done_run: Vec<SkillGrpDat> = Vec::new();
                std::mem::swap(&mut done_run, &mut cur);
                runs.push(done_run);
                proof {
                    assert(runs@.map_values(|g: Vec<SkillGrpDat>| grp_views(g@)) =~= done.push(cv));
                    assert(skill_runs(prefix).last() == cv);
                    assert(skill_runs(next) =~= skill_runs(prefix).push(seq![v@]));
                }
            } else {
                proof {
                    assert(prefix.len() == 0);
                    assert(skill_runs(next) =~= seq![seq![v@]]);
                    assert(runs@.map_values(|g: Vec<SkillGrpDat>| grp_views(g@)) =~= seq![]);
                }
            }
            cur_id = v.id;
            cur.push(v);
            proof {
                assert(grp_views(cur@) =~= seq![all[i as int]]);
            }
        } else {
            cur.push(v);
            proof {
                assert(grp_views(cur@) =~= cv.push(all[i as int]));
                assert(skill_runs(prefix).last().last().id == cur_id);
                assert(skill_runs(next) =~= skill_runs(prefix).update(
                    skill_runs(prefix).len() - 1,
                    cv.push(all[i as int]),
                ));
            }
        }
        i += 1;
    }
    proof {
        assert(all.take(n as int) =~= all);
    }
    if n > 0 {
        let ghost done = runs@.map_values(|g: Vec<SkillGrpDat>| grp_views(g@));
        let ghost cv = grp_views(cur@);
        runs.push(cur);
        proof {
            assert(runs@.map_values(|g: Vec<SkillGrpDat>| grp_views(g@)) =~= done.push(cv));
        }
    } else {
        proof {
            assert(all =~= Seq::<SkillGrpDatView>::empty());
            assert(runs@.map_values(|g: Vec<SkillGrpDat>| grp_views(g@)) =~= skill_runs(all));
        }
    }
    runs
}

/// The level read from a level record takes each of its costs and times from the
/// same-named column: hit time from `hit_time`, cool time from `cool_time`, mp cost
/// from `mp_consume`, hp cost from `hp_consume`, cast range, reuse delay and effect
/// point each from its own column, and the level number from `level`; it has no
/// enchant routes of its own yet.
pub proof fn law_level_from_record_columns(
    v: SkillGrpDat,
    first: SkillGrpDat,
    n: SkillNameDat,
    fname: SkillNameDat,
    d: Map<u32, Seq<char>>,
    gdn: Seq<Seq<char>>,
    r: SkillLevelInfo,
)
    requires
        r@ == level_from_record(v@, first@, n, fname, d, gdn),
    ensures
        r.hit_time == v.hit_time,
        r.cool_time == v.cool_time,
        r.mp_cost == v.mp_consume,
        r.hp_cost == v.hp_consume,
        r.cast_range == v.cast_range,
        r.reuse_delay == v.reuse_delay,
        r.effect_point == v.effect_point,
        r.level == v.level as u32,
        r.description_params@ == d[n.desc_params],
        r.available_enchants@.len() == 0,
{
    assert(r@.available_enchants.len() == r.available_enchants@.len());
}

/// The enchant level read from an enchant record takes each of its costs and times
/// from the same-named column, like a level does.
pub proof fn law_enchant_level_from_record_columns(
    v: SkillGrpDat,
    first: SkillGrpDat,
    n: SkillNameDat,
    d: Map<u32, Seq<char>>,
    gdn: Seq<Seq<char>>,
    r: EnchantLevelInfo,
)
    requires
        r@ == enchant_level_from_record(v@, first@, n, d, gdn),
    ensures
        r.hit_time == v.hit_time,
        r.cool_time == v.cool_time,
        r.mp_cost == v.mp_consume,
        r.hp_cost == v.hp_consume,
        r.cast_range == v.cast_range,
        r.reuse_delay == v.reuse_delay,
        r.effect_point == v.effect_point,
        r.skill_description_params@ == d[n.desc_params],
        r.enchant_name_params@ == d[n.enchant_name_params],
        r.enchant_description_params@ == d[n.enchant_desc_params],
{
}

/// The skill read from its records takes its own fields from the same-named columns
/// of its first record: id, type, resist cast, magic type, cast style, skill magic
/// type, origin skill, visual effect and rumbles; a flag is set where its column
/// holds 1; it has an animation for each number the record lists.
pub proof fn law_skill_from_columns(
    grps: Seq<SkillGrpDat>,
    names: Map<u64, SkillNameDat>,
    d: Map<u32, Seq<char>>,
    sound: SkillSoundDat,
    source: SkillSoundSourceDat,
    gdn: Seq<Seq<char>>,
    s: Skill,
)
    requires
        grps.len() > 0,
        s@ == skill_from(grp_views(grps), names, d, sound, source, gdn),
    ensures
        s.id.0 == grps[0].id as u32,
        s.skill_type == grps[0].skill_type,
        s.resist_cast == grps[0].resist_cast,
        s.magic_type == grps[0].magic_type,
        s.cast_style == grps[0].cast_style,
        s.skill_magic_type == grps[0].skill_magic_type,
        s.origin_skill.0 == grps[0].origin_skill as u32,
        s.visual_effect.0 == grps[0].skill_visual_effect,
        s.rumble_self == grps[0].rumble_self,
        s.rumble_target == grps[0].rumble_target,
        s.is_double == (grps[0].is_double == 1),
        s.is_debuff == (grps[0].debuff == 1),
        s.cast_bar_text_is_red == (grps[0].cast_bar_text_is_red == 1),
        s.animations@.len() == grps[0].animation@.len(),
        s.name@ == d[name_of(names, grps[0]@).name],
        s.description@ == d[name_of(names, grps[0]@).desc],
        s.icon@ == gdn[grps[0].icon as int],
        s.icon_panel@ == gdn[grps[0].icon_panel as int],
{
    assert(grp_views(grps)[0] == grps[0]@);
    assert(s@.animations.len() == s.animations@.len());
}

/// The sounds read from a sound record and its source record: the effect sound at
/// each of the nine positions takes its text from the general table under the
/// record's number at that position, its volume, radius and delay from the three
/// parameters at that position in that order, and its source from the source record;
/// the cast volume and radius come from `cast_volume` and `cast_rad`.
pub proof fn law_sound_info_columns(s: SkillSoundDat, src: SkillSoundSourceDat, gdn: Seq<Seq<char>>, r: SkillSoundInfo)
    requires
        r@ == sound_info_from(s, src, gdn),
    ensures
        r.vol == s.cast_volume,
        r.rad == s.cast_rad,
        r.mextra_throw@ == gdn[s.mextra_throw as int],
        r.fextra_throw@ == gdn[s.fextra_throw as int],
        r.spell_effect_1.vol == s.effect_params@[0],
        r.spell_effect_1.rad == s.effect_params@[1],
        r.spell_effect_1.delay == s.effect_params@[2],
        r.spell_effect_1.source == src.effects@[0],
        r.spell_effect_1.sound@ == gdn[s.effect_sounds@[0] as int],
        r.shot_effect_1.vol == s.effect_params@[9],
        r.shot_effect_1.rad == s.effect_params@[10],
        r.shot_effect_1.delay == s.effect_params@[11],
        r.shot_effect_1.source == src.effects@[3],
        r.exp_effect_1.vol == s.effect_params@[18],
        r.exp_effect_1.rad == s.effect_params@[19],
        r.exp_effect_1.delay == s.effect_params@[20],
        r.exp_effect_1.source == src.effects@[6],
        forall|k: int|
            0 <= k < 9 ==> {
                &&& (#[trigger] r@.effects[k]).vol == s.effect_params@[3 * k]
                &&& r@.effects[k].rad == s.effect_params@[3 * k + 1]
                &&& r@.effects[k].delay == s.effect_params@[3 * k + 2]
                &&& r@.effects[k].source == src.effects@[k]
                &&& r@.effects[k].sound == gdn[s.effect_sounds@[k] as int]
            },
{
    assert(r@.effects[0] == r.spell_effect_1@);
    assert(r@.effects[3] == r.shot_effect_1@);
    assert(r@.effects[6] == r.exp_effect_1@);
}

} // verus!
