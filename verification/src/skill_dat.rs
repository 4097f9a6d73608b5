//! The records of the skill dat files (`skillgrp.dat`, `skillname-ru.dat`,
//! `skillsoundgrp.dat`, `skillsoundsource.dat`) and how a skill is written as them.
use vstd::prelude::*;
use crate::skill::{
    opt_view, EnchantInfo, EnchantLevelInfo, Skill, SkillLevelInfo, SkillSoundInfoView, SkillView,
    SkillLevelInfoView, EnchantInfoView, EnchantLevelInfoView,
};
use crate::string_table::{
    general_get_indices, general_intern_all, lemma_general_intern_all_len,
    lemma_skill_intern_all_len, skill_get_indices, skill_intern_all, L2GeneralStringTable,
    L2SkillStringTable,
};
use crate::vec_util::{bool_code, copy_vec, to_u32_bool};
use vstd::string::StringExecFns;

verus! {

/// A record of `skillgrp.dat`: one level or enchant level of a skill. Hit, cool
/// and reuse times are the bits of the 32-bit floats that the file holds; the
/// texts are numbers in the general name table.
#[derive(Clone, Debug, PartialEq, Default)]
pub struct SkillGrpDat {
    pub id: u16,
    pub level: u8,
    pub sub_level: i16,
    pub skill_type: u8,
    pub resist_cast: u8,
    pub magic_type: u8,
    pub mp_consume: i16,
    pub cast_range: u32,
    pub cast_style: u8,
    pub hit_time: u32,
    pub cool_time: u32,
    pub reuse_delay: u32,
    pub effect_point: i32,
    pub skill_magic_type: u8,
    pub origin_skill: i16,
    pub is_double: u8,
    pub animation: Vec<u32>,
    pub skill_visual_effect: u32,
    pub icon: u32,
    pub icon_panel: u32,
    pub debuff: u8,
    pub cast_bar_text_is_red: u8,
    pub enchant_skill_level: u8,
    pub enchant_icon: u32,
    pub hp_consume: i16,
    pub rumble_self: u8,
    pub rumble_target: u8,
}

/// The value of a `skillgrp.dat` record.
pub struct SkillGrpDatView {
    pub id: u16,
    pub level: u8,
    pub sub_level: i16,
    pub skill_type: u8,
    pub resist_cast: u8,
    pub magic_type: u8,
    pub mp_consume: i16,
    pub cast_range: u32,
    pub cast_style: u8,
    pub hit_time: u32,
    pub cool_time: u32,
    pub reuse_delay: u32,
    pub effect_point: i32,
    pub skill_magic_type: u8,
    pub origin_skill: i16,
    pub is_double: u8,
    pub animation: Seq<u32>,
    pub skill_visual_effect: u32,
    pub icon: u32,
    pub icon_panel: u32,
    pub debuff: u8,
    pub cast_bar_text_is_red: u8,
    pub enchant_skill_level: u8,
    pub enchant_icon: u32,
    pub hp_consume: i16,
    pub rumble_self: u8,
    pub rumble_target: u8,
}

impl View for SkillGrpDat {
    type V = SkillGrpDatView;

    open spec fn view(&self) -> SkillGrpDatView {
        SkillGrpDatView {
            id: self.id,
            level: self.level,
            sub_level: self.sub_level,
            skill_type: self.skill_type,
            resist_cast: self.resist_cast,
            magic_type: self.magic_type,
            mp_consume: self.mp_consume,
            cast_range: self.cast_range,
            cast_style: self.cast_style,
            hit_time: self.hit_time,
            cool_time: self.cool_time,
            reuse_delay: self.reuse_delay,
            effect_point: self.effect_point,
            skill_magic_type: self.skill_magic_type,
            origin_skill: self.origin_skill,
            is_double: self.is_double,
            animation: self.animation@,
            skill_visual_effect: self.skill_visual_effect,
            icon: self.icon,
            icon_panel: self.icon_panel,
            debuff: self.debuff,
            cast_bar_text_is_red: self.cast_bar_text_is_red,
            enchant_skill_level: self.enchant_skill_level,
            enchant_icon: self.enchant_icon,
            hp_consume: self.hp_consume,
            rumble_self: self.rumble_self,
            rumble_target: self.rumble_target,
        }
    }
}

impl SkillGrpDat {
    /// A record with every field zero and no animation.
    pub fn new() -> (r: SkillGrpDat)
        ensures
            r@ == zero_grp(),
    {
        SkillGrpDat {
            id: 0,
            level: 0,
            sub_level: 0,
            skill_type: 0,
            resist_cast: 0,
            magic_type: 0,
            mp_consume: 0,
            cast_range: 0,
            cast_style: 0,
            hit_time: 0,
            cool_time: 0,
            reuse_delay: 0,
            effect_point: 0,
            skill_magic_type: 0,
            origin_skill: 0,
            is_double: 0,
            animation: Vec::new(),
            skill_visual_effect: 0,
            icon: 0,
            icon_panel: 0,
            debuff: 0,
            cast_bar_text_is_red: 0,
            enchant_skill_level: 0,
            enchant_icon: 0,
            hp_consume: 0,
            rumble_self: 0,
            rumble_target: 0,
        }
    }

    /// A copy of the record.
    pub fn duplicate(&self) -> (r: SkillGrpDat)
        ensures
            r@ == self@,
    {
        SkillGrpDat {
            id: self.id,
            level: self.level,
            sub_level: self.sub_level,
            skill_type: self.skill_type,
            resist_cast: self.resist_cast,
            magic_type: self.magic_type,
            mp_consume: self.mp_consume,
            cast_range: self.cast_range,
            cast_style: self.cast_style,
            hit_time: self.hit_time,
            cool_time: self.cool_time,
            reuse_delay: self.reuse_delay,
            effect_point: self.effect_point,
            skill_magic_type: self.skill_magic_type,
            origin_skill: self.origin_skill,
            is_double: self.is_double,
            animation: copy_vec(&self.animation),
            skill_visual_effect: self.skill_visual_effect,
            icon: self.icon,
            icon_panel: self.icon_panel,
            debuff: self.debuff,
            cast_bar_text_is_red: self.cast_bar_text_is_red,
            enchant_skill_level: self.enchant_skill_level,
            enchant_icon: self.enchant_icon,
            hp_consume: self.hp_consume,
            rumble_self: self.rumble_self,
            rumble_target: self.rumble_target,
        }
    }
}

/// The value of a `skillgrp.dat` record with every field zero.
pub open spec fn zero_grp() -> SkillGrpDatView {
    SkillGrpDatView {
        id: 0,
        level: 0,
        sub_level: 0,
        skill_type: 0,
        resist_cast: 0,
        magic_type: 0,
        mp_consume: 0,
        cast_range: 0,
        cast_style: 0,
        hit_time: 0,
        cool_time: 0,
        reuse_delay: 0,
        effect_point: 0,
        skill_magic_type: 0,
        origin_skill: 0,
        is_double: 0,
        animation: Seq::<u32>::empty(),
        skill_visual_effect: 0,
        icon: 0,
        icon_panel: 0,
        debuff: 0,
        cast_bar_text_is_red: 0,
        enchant_skill_level: 0,
        enchant_icon: 0,
        hp_consume: 0,
        rumble_self: 0,
        rumble_target: 0,
    }
}

/// A record of `skillname-ru.dat`: the texts of one level or enchant level of a
/// skill, as numbers in the skill name table.
#[derive(Clone, Copy, PartialEq, Eq, Structural, Default, Debug)]
pub struct SkillNameDat {
    pub id: u32,
    pub level: i16,
    pub sub_level: i16,
    pub prev_id: u32,
    pub prev_level: i16,
    pub prev_sub_level: i16,
    pub name: u32,
    pub desc: u32,
    pub desc_params: u32,
    pub enchant_name: u32,
    pub enchant_name_params: u32,
    pub enchant_desc: u32,
    pub enchant_desc_params: u32,
}

/// A record of the text table at the head of `skillname-ru.dat`.
#[derive(Clone, Debug, PartialEq)]
pub struct SkillNameTableRecord {
    pub val: String,
    pub id: u32,
}

/// A record of `skillsoundgrp.dat`. `effect_sounds` holds the name numbers of the
/// spell, shot and explosion effects (three of each), `effect_params` the volume,
/// radius and delay of each in the same order (float bits), `cast_sounds` and
/// `magic_sounds` the name numbers of the sounds before and after casting, one per
/// race and sex.
#[derive(Clone, Copy, Debug, PartialEq)]
pub struct SkillSoundDat {
    pub id: u32,
    pub level: u32,
    pub effect_sounds: [u32; 9],
    pub effect_params: [u32; 27],
    pub cast_sounds: [u32; 18],
    pub mextra_throw: u32,
    pub magic_sounds: [u32; 18],
    pub fextra_throw: u32,
    pub cast_volume: u32,
    pub cast_rad: u32,
}

/// A record of `skillsoundsource.dat`: the source of each effect sound, in the
/// order of `SkillSoundDat::effect_sounds`.
#[derive(Clone, Copy, Debug, PartialEq)]
pub struct SkillSoundSourceDat {
    pub id: u32,
    pub effects: [u32; 9],
}

// ------------------------------------------------------------------------------------------
// Sounds
// ------------------------------------------------------------------------------------------

/// The texts that a skill's sound record refers to, in the order they are numbered:
/// the nine effect sounds, the eighteen sounds before casting, the male extra
/// throw, the eighteen sounds after casting, the female extra throw.
pub open spec fn sound_texts(s: SkillSoundInfoView) -> Seq<Seq<char>> {
    s.effects.map_values(|e: crate::skill::SoundInfoView| e.sound) + s.sound_before_cast + seq![
        s.mextra_throw,
    ] + s.sound_after_cast + seq![s.fextra_throw]
}

/// The volume, radius and delay columns that a skill's sound record holds. The
/// explosion columns repeat shot values: the first explosion effect takes the
/// first shot effect's, the second the second's, the third the first shot's
/// volume, the second shot's radius and the third shot's delay.
pub open spec fn sound_params(s: SkillSoundInfoView) -> Seq<u32> {
    let e = s.effects;
    seq![
        e[0].vol, e[0].rad, e[0].delay,
        e[1].vol, e[1].rad, e[1].delay,
        e[2].vol, e[2].rad, e[2].delay,
        e[3].vol, e[3].rad, e[3].delay,
        e[4].vol, e[4].rad, e[4].delay,
        e[5].vol, e[5].rad, e[5].delay,
        e[3].vol, e[3].rad, e[3].delay,
        e[4].vol, e[4].rad, e[4].delay,
        e[3].vol, e[4].rad, e[5].delay,
    ]
}

/// The sources that a skill's sound-source record holds: the second and third
/// explosion columns repeat the first explosion effect's source.
pub open spec fn sound_sources(s: SkillSoundInfoView) -> Seq<u32> {
    let e = s.effects;
    seq![e[0].source, e[1].source, e[2].source, e[3].source, e[4].source, e[5].source, e[6].source, e[6].source, e[6].source]
}

/// The numbers as 32-bit values.
pub open spec fn as_u32s(s: Seq<int>) -> Seq<u32> {
    s.map_values(|x: int| x as u32)
}

/// Whether `r` is the sound record of skill `s`, its sound names numbered from the
/// general table `gdn` in the order of `sound_texts`.
pub open spec fn is_sound_record(r: SkillSoundDat, s: SkillView, gdn: Seq<Seq<char>>) -> bool {
    let idx = general_intern_all(gdn, sound_texts(s.sound_info)).1;
    &&& r.id == s.id.0
    &&& r.level == 1
    &&& r.effect_sounds@ == as_u32s(idx.subrange(0, 9))
    &&& r.effect_params@ == sound_params(s.sound_info)
    &&& r.cast_sounds@ == as_u32s(idx.subrange(9, 27))
    &&& r.mextra_throw == idx[27] as u32
    &&& r.magic_sounds@ == as_u32s(idx.subrange(28, 46))
    &&& r.fextra_throw == idx[46] as u32
    &&& r.cast_volume == s.sound_info.vol
    &&& r.cast_rad == s.sound_info.rad
}

/// Whether `r` is the sound-source record of skill `s`.
pub open spec fn is_source_record(r: SkillSoundSourceDat, s: SkillView) -> bool {
    r.id == s.id.0 && r.effects@ == sound_sources(s.sound_info)
}

impl Skill {
    /// The `skillsoundsource.dat` record of the skill.
    pub fn sound_source_data(&self) -> (r: SkillSoundSourceDat)
        ensures
            is_source_record(r, self@),
    {
        let s = &self.sound_info;
        let r = SkillSoundSourceDat {
            id: self.id.0,
            effects: [
                s.spell_effect_1.source,
                s.spell_effect_2.source,
                s.spell_effect_3.source,
                s.shot_effect_1.source,
                s.shot_effect_2.source,
                s.shot_effect_3.source,
                s.exp_effect_1.source,
                s.exp_effect_1.source,
                s.exp_effect_1.source,
            ],
        };
        proof {
            assert(r.effects@ =~= sound_sources(self.sound_info@));
        }
        r
    }

    /// The `skillsoundgrp.dat` record of the skill; its sound names are numbered
    /// through `string_table`, in the order of `sound_texts`.
    pub fn sound_data(&self, string_table: &mut L2GeneralStringTable) -> (r: SkillSoundDat)
        requires
            old(string_table)@.len() + 47 < u32::MAX,
        ensures
            final(string_table)@ == general_intern_all(old(string_table)@, sound_texts(self.sound_info@)).0,
            is_sound_record(r, self@, old(string_table)@),
            final(string_table).changed() == (old(string_table).changed() || final(string_table)@.len()
                > old(string_table)@.len()),
    {
        let s = &self.sound_info;
        let mut texts: Vec<&String> = Vec::new();
        texts.push(&s.spell_effect_1.sound);
        texts.push(&s.spell_effect_2.sound);
        texts.push(&s.spell_effect_3.sound);
        texts.push(&s.shot_effect_1.sound);
        texts.push(&s.shot_effect_2.sound);
        texts.push(&s.shot_effect_3.sound);
        texts.push(&s.exp_effect_1.sound);
        texts.push(&s.exp_effect_2.sound);
        texts.push(&s.exp_effect_3.sound);
        texts.push(&s.sound_before_cast.mfighter);
        texts.push(&s.sound_before_cast.ffighter);
        texts.push(&s.sound_before_cast.mmagic);
        texts.push(&s.sound_before_cast.fmagic);
        texts.push(&s.sound_before_cast.melf);
        texts.push(&s.sound_before_cast.felf);
        texts.push(&s.sound_before_cast.mdark_elf);
        texts.push(&s.sound_before_cast.fdark_elf);
        texts.push(&s.sound_before_cast.mdwarf);
        texts.push(&s.sound_before_cast.fdwarf);
        texts.push(&s.sound_before_cast.morc);
        texts.push(&s.sound_before_cast.forc);
        texts.push(&s.sound_before_cast.mshaman);
        texts.push(&s.sound_before_cast.fshaman);
        texts.push(&s.sound_before_cast.mkamael);
        texts.push(&s.sound_before_cast.fkamael);
        texts.push(&s.sound_before_cast.mertheia);
        texts.push(&s.sound_before_cast.fertheia);
        texts.push(&s.mextra_throw);
        texts.push(&s.sound_after_cast.mfighter);
        texts.push(&s.sound_after_cast.ffighter);
        texts.push(&s.sound_after_cast.mmagic);
        texts.push(&s.sound_after_cast.fmagic);
        texts.push(&s.sound_after_cast.melf);
        texts.push(&s.sound_after_cast.felf);
        texts.push(&s.sound_after_cast.mdark_elf);
        texts.push(&s.sound_after_cast.fdark_elf);
        texts.push(&s.sound_after_cast.mdwarf);
        texts.push(&s.sound_after_cast.fdwarf);
        texts.push(&s.sound_after_cast.morc);
        texts.push(&s.sound_after_cast.forc);
        texts.push(&s.sound_after_cast.mshaman);
        texts.push(&s.sound_after_cast.fshaman);
        texts.push(&s.sound_after_cast.mkamael);
        texts.push(&s.sound_after_cast.fkamael);
        texts.push(&s.sound_after_cast.mertheia);
        texts.push(&s.sound_after_cast.fertheia);
        texts.push(&s.fextra_throw);
        proof {
            assert(texts@.map_values(|t: &String| t@) =~= sound_texts(self.sound_info@));
        }
        let idx = general_get_indices(string_table, &texts);
        proof {
            lemma_general_intern_all_len(old(string_table)@, sound_texts(self.sound_info@));
            assert(idx@.len() == 47);
        }
        let r = SkillSoundDat {
            id: self.id.0,
            level: 1,
            effect_sounds: [idx[0], idx[1], idx[2], idx[3], idx[4], idx[5], idx[6], idx[7], idx[8]],
            effect_params: [
                s.spell_effect_1.vol, s.spell_effect_1.rad, s.spell_effect_1.delay, s.spell_effect_2.vol, s.spell_effect_2.rad, s.spell_effect_2.delay, s.spell_effect_3.vol, s.spell_effect_3.rad, s.spell_effect_3.delay, s.shot_effect_1.vol, s.shot_effect_1.rad, s.shot_effect_1.delay, s.shot_effect_2.vol, s.shot_effect_2.rad, s.shot_effect_2.delay, s.shot_effect_3.vol, s.shot_effect_3.rad, s.shot_effect_3.delay, s.shot_effect_1.vol, s.shot_effect_1.rad, s.shot_effect_1.delay, s.shot_effect_2.vol, s.shot_effect_2.rad, s.shot_effect_2.delay, s.shot_effect_1.vol, s.shot_effect_2.rad, s.shot_effect_3.delay,
            ],
            cast_sounds: [idx[9], idx[10], idx[11], idx[12], idx[13], idx[14], idx[15], idx[16], idx[17], idx[18], idx[19], idx[20], idx[21], idx[22], idx[23], idx[24], idx[25], idx[26]],
            mextra_throw: idx[27],
            magic_sounds: [idx[28], idx[29], idx[30], idx[31], idx[32], idx[33], idx[34], idx[35], idx[36], idx[37], idx[38], idx[39], idx[40], idx[41], idx[42], idx[43], idx[44], idx[45]],
            fextra_throw: idx[46],
            cast_volume: s.vol,
            cast_rad: s.rad,
        };
        proof {
            let ii = general_intern_all(old(string_table)@, sound_texts(self.sound_info@)).1;
            assert(r.effect_sounds@ =~= as_u32s(ii.subrange(0, 9)));
            assert(r.cast_sounds@ =~= as_u32s(ii.subrange(9, 27)));
            assert(r.magic_sounds@ =~= as_u32s(ii.subrange(28, 46)));
            assert(r.effect_params@ =~= sound_params(self.sound_info@));
        }
        r
    }
}

// ------------------------------------------------------------------------------------------
// Name records
// ------------------------------------------------------------------------------------------

/// The text of an optional text, or `default` where there is none.
pub open spec fn text_or(o: Option<Seq<char>>, default: Seq<char>) -> Seq<char> {
    match o {
        Some(t) => t,
        None => default,
    }
}

/// A name record filled with a skill's own fields; the name table after numbering
/// the skill's name and description, in that order.
pub open spec fn name_fill_skill(n: SkillNameDat, skill: SkillView, sk: Seq<Seq<char>>) -> (
    SkillNameDat,
    Seq<Seq<char>>,
) {
    let (e, idx) = skill_intern_all(sk, seq![skill.name, skill.description]);
    (
        SkillNameDat {
            id: skill.id.0,
            sub_level: 0,
            prev_id: 0,
            prev_level: -1i16,
            prev_sub_level: -1i16,
            name: idx[0] as u32,
            desc: idx[1] as u32,
            ..n
        },
        e,
    )
}

/// A name record filled with a level's fields. A level other than the first also
/// points back at the skill and carries its own description ("\0" where it has none).
pub open spec fn name_fill_level(
    n: SkillNameDat,
    level: SkillLevelInfoView,
    sk: Seq<Seq<char>>,
    first: bool,
) -> (SkillNameDat, Seq<Seq<char>>) {
    let texts = if first {
        seq![level.description_params]
    } else {
        seq![text_or(level.description, "\0"@), level.description_params]
    };
    let (e, idx) = skill_intern_all(sk, texts);
    let base = SkillNameDat { level: level.level as i16, prev_level: (level.level - 1) as i16, ..n };
    if first {
        (SkillNameDat { desc_params: idx[0] as u32, ..base }, e)
    } else {
        (
            SkillNameDat {
                prev_id: n.id,
                prev_sub_level: 0,
                desc: idx[0] as u32,
                desc_params: idx[1] as u32,
                ..base
            },
            e,
        )
    }
}

/// A name record filled with an enchant route's fields.
pub open spec fn name_fill_enchant(
    n: SkillNameDat,
    enchant: EnchantInfoView,
    sk: Seq<Seq<char>>,
    level: u32,
) -> (SkillNameDat, Seq<Seq<char>>) {
    let (e, idx) = skill_intern_all(
        sk,
        seq![enchant.enchant_description, enchant.enchant_name, text_or(enchant.skill_description, ""@)],
    );
    (
        SkillNameDat {
            enchant_desc: idx[0] as u32,
            enchant_name: idx[1] as u32,
            desc: idx[2] as u32,
            prev_level: level as i16,
            ..n
        },
        e,
    )
}

/// The sub-level number of an enchant level: the route's type in the thousands,
/// the level in the units, cut to 16 bits.
pub open spec fn sub_level_of(enchant_type: u32, level: u32) -> i16 {
    (enchant_type * 1000 + level) as i16
}

/// Whether the sub-level of an enchant level can be computed without overflow.
pub open spec fn sub_level_fits(enchant_type: u32, level: u32) -> bool {
    &&& enchant_type * 1000 + level <= u32::MAX
    &&& level > 1 ==> sub_level_of(enchant_type, level) > i16::MIN
}

/// A name record filled with an enchant level's fields.
pub open spec fn name_fill_enchant_level(
    n: SkillNameDat,
    el: EnchantLevelInfoView,
    sk: Seq<Seq<char>>,
    enchant_type: u32,
) -> (SkillNameDat, Seq<Seq<char>>) {
    let (e, idx) = skill_intern_all(
        sk,
        seq![el.enchant_name_params, el.enchant_description_params, el.skill_description_params],
    );
    let sub = sub_level_of(enchant_type, el.level);
    (
        SkillNameDat {
            enchant_name_params: idx[0] as u32,
            enchant_desc_params: idx[1] as u32,
            desc_params: idx[2] as u32,
            sub_level: sub,
            prev_sub_level: if el.level > 1 {
                (sub - 1) as i16
            } else {
                0
            },
            ..n
        },
        e,
    )
}

impl SkillNameDat {
    /// Fills the record with the skill's own fields.
    pub fn fill_from_skill(&mut self, skill: &Skill, skill_string_table: &mut L2SkillStringTable)
        requires
            old(skill_string_table)@.len() + 2 < u32::MAX,
        ensures
            (*final(self), final(skill_string_table)@) == name_fill_skill(
                *old(self),
                skill@,
                old(skill_string_table)@,
            ),
    {
        let mut texts: Vec<&String> = Vec::new();
        texts.push(&skill.name);
        texts.push(&skill.description);
        proof {
            assert(texts@.map_values(|t: &String| t@) =~= seq![skill@.name, skill@.description]);
            lemma_skill_intern_all_len(old(skill_string_table)@, seq![skill@.name, skill@.description]);
        }
        let idx = skill_get_indices(skill_string_table, &texts);
        self.id = skill.id.0;
        self.sub_level = 0;
        self.prev_id = 0;
        self.prev_level = -1;
        self.prev_sub_level = -1;
        self.name = idx[0];
        self.desc = idx[1];
    }

    /// Fills the record with a level's fields; `first` tells whether it is the
    /// skill's first level.
    pub fn fill_from_level(
        &mut self,
        level: &SkillLevelInfo,
        skill_string_table: &mut L2SkillStringTable,
        first: bool,
    )
        requires
            old(skill_string_table)@.len() + 2 < u32::MAX,
            level.level >= 1,
        ensures
            (*final(self), final(skill_string_table)@) == name_fill_level(
                *old(self),
                level@,
                old(skill_string_table)@,
                first,
            ),
    {
        let zero = String::from_str("\0");
        let mut texts: Vec<&String> = Vec::new();
        if !first {
            match &level.description {
                Some(v) => texts.push(v),
                None => texts.push(&zero),
            }
        }
        texts.push(&level.description_params);
        let ghost t = if first {
            seq![level@.description_params]
        } else {
            seq![text_or(level@.description, "\0"@), level@.description_params]
        };
        proof {
            assert(texts@.map_values(|x: &String| x@) =~= t);
            lemma_skill_intern_all_len(old(skill_string_table)@, t);
        }
        let idx = skill_get_indices(skill_string_table, &texts);
        self.level = #[verifier::truncate] (level.level as i16);
        self.prev_level = #[verifier::truncate] ((level.level - 1) as i16);
        if !first {
            self.prev_id = self.id;
            self.prev_sub_level = 0;
            self.desc = idx[0];
            self.desc_params = idx[1];
        } else {
            self.desc_params = idx[0];
        }
    }

    /// Fills the record with an enchant route's fields; `level` is the skill level
    /// the route belongs to.
    pub fn fill_from_enchant(
        &mut self,
        enchant: &EnchantInfo,
        skill_string_table: &mut L2SkillStringTable,
        level: u32,
    )
        requires
            old(skill_string_table)@.len() + 3 < u32::MAX,
        ensures
            (*final(self), final(skill_string_table)@) == name_fill_enchant(
                *old(self),
                enchant@,
                old(skill_string_table)@,
                level,
            ),
    {
        let empty = String::new();
        let mut texts: Vec<&String> = Vec::new();
        texts.push(&enchant.enchant_description);
        texts.push(&enchant.enchant_name);
        match &enchant.skill_description {
            Some(v) => texts.push(v),
            None => texts.push(&empty),
        }
        let ghost t = seq![
            enchant@.enchant_description,
            enchant@.enchant_name,
            text_or(enchant@.skill_description, ""@),
        ];
        proof {
            reveal_strlit("");
            assert(""@ =~= Seq::<char>::empty());
            assert(empty@ =~= ""@);
            match &enchant.skill_description {
                Some(v) => {
                    assert(texts@[2]@ == v@);
                },
                None => {
                    assert(texts@[2]@ == empty@);
                },
            }
            assert(texts@.map_values(|x: &String| x@) =~= t);
            lemma_skill_intern_all_len(old(skill_string_table)@, t);
        }
        let idx = skill_get_indices(skill_string_table, &texts);
        self.enchant_desc = idx[0];
        self.enchant_name = idx[1];
        self.desc = idx[2];
        self.prev_level = #[verifier::truncate] (level as i16);
    }

    /// Fills the record with an enchant level's fields; `enchant_type` is the type
    /// of the route the level belongs to.
    pub fn fill_from_enchant_level(
        &mut self,
        enchant_level: &EnchantLevelInfo,
        skill_string_table: &mut L2SkillStringTable,
        enchant_type: u32,
    )
        requires
            old(skill_string_table)@.len() + 3 < u32::MAX,
            sub_level_fits(enchant_type, enchant_level.level),
        ensures
            (*final(self), final(skill_string_table)@) == name_fill_enchant_level(
                *old(self),
                enchant_level@,
                old(skill_string_table)@,
                enchant_type,
            ),
    {
        let mut texts: Vec<&String> = Vec::new();
        texts.push(&enchant_level.enchant_name_params);
        texts.push(&enchant_level.enchant_description_params);
        texts.push(&enchant_level.skill_description_params);
        let ghost t = seq![
            enchant_level@.enchant_name_params,
            enchant_level@.enchant_description_params,
            enchant_level@.skill_description_params,
        ];
        proof {
            assert(texts@.map_values(|x: &String| x@) =~= t);
            lemma_skill_intern_all_len(old(skill_string_table)@, t);
        }
        let idx = skill_get_indices(skill_string_table, &texts);
        self.enchant_name_params = idx[0];
        self.enchant_desc_params = idx[1];
        self.desc_params = idx[2];
        self.sub_level = #[verifier::truncate] ((enchant_type * 1000 + enchant_level.level) as i16);
        self.prev_sub_level = if enchant_level.level > 1 {
            self.sub_level - 1
        } else {
            0
        };
    }
}

// ------------------------------------------------------------------------------------------
// Level records
// ------------------------------------------------------------------------------------------

/// The texts of two optional icons, the present ones in order.
pub open spec fn opt_texts(a: Option<Seq<char>>, b: Option<Seq<char>>) -> Seq<Seq<char>> {
    (match a {
        Some(t) => seq![t],
        None => Seq::<Seq<char>>::empty(),
    }) + (match b {
        Some(t) => seq![t],
        None => Seq::<Seq<char>>::empty(),
    })
}

/// A level record with the numbers of the present icons filled in; `idx` numbers
/// the texts of `opt_texts(icon, icon_panel)`.
pub open spec fn icons_filled(
    g: SkillGrpDatView,
    icon: Option<Seq<char>>,
    icon_panel: Option<Seq<char>>,
    idx: Seq<int>,
) -> SkillGrpDatView {
    let g1 = match icon {
        Some(_) => SkillGrpDatView { icon: idx[0] as u32, ..g },
        None => g,
    };
    let off: int = if icon is Some {
        1
    } else {
        0
    };
    match icon_panel {
        Some(_) => SkillGrpDatView { icon_panel: idx[off] as u32, ..g1 },
        None => g1,
    }
}

/// A level record filled with a skill's own fields; the general table after
/// numbering the animations, the icon, the panel icon and "None", in that order.
pub open spec fn grp_fill_skill(g: SkillGrpDatView, skill: SkillView, gdn: Seq<Seq<char>>) -> (
    SkillGrpDatView,
    Seq<Seq<char>>,
) {
    let k = skill.animations.len() as int;
    let (e, idx) = general_intern_all(gdn, skill.animations + seq![skill.icon, skill.icon_panel, "None"@]);
    (
        SkillGrpDatView {
            id: skill.id.0 as u16,
            skill_type: skill.skill_type,
            resist_cast: skill.resist_cast,
            magic_type: skill.magic_type,
            cast_style: skill.cast_style,
            skill_magic_type: skill.skill_magic_type,
            origin_skill: skill.origin_skill.0 as i16,
            is_double: bool_code(skill.is_double) as u8,
            animation: as_u32s(idx.subrange(0, k)),
            skill_visual_effect: skill.visual_effect.0,
            icon: idx[k] as u32,
            icon_panel: idx[k + 1] as u32,
            debuff: bool_code(skill.is_debuff) as u8,
            cast_bar_text_is_red: bool_code(skill.is_debuff) as u8,
            enchant_skill_level: 0,
            enchant_icon: idx[k + 2] as u32,
            rumble_self: skill.rumble_self,
            rumble_target: skill.rumble_target,
            ..g
        },
        e,
    )
}

/// A level record filled with a level's fields; a level other than the first also
/// sets the icons it has of its own.
pub open spec fn grp_fill_level(
    g: SkillGrpDatView,
    level: SkillLevelInfoView,
    gdn: Seq<Seq<char>>,
    first: bool,
) -> (SkillGrpDatView, Seq<Seq<char>>) {
    let texts = if first {
        Seq::<Seq<char>>::empty()
    } else {
        opt_texts(level.icon, level.icon_panel)
    };
    let (e, idx) = general_intern_all(gdn, texts);
    let base = SkillGrpDatView {
        level: level.level as u8,
        mp_consume: level.mp_cost,
        cast_range: level.cast_range,
        hit_time: level.hit_time,
        cool_time: level.cool_time,
        reuse_delay: level.reuse_delay,
        effect_point: level.effect_point,
        hp_consume: level.hp_cost,
        ..g
    };
    (
        if first {
            base
        } else {
            icons_filled(base, level.icon, level.icon_panel, idx)
        },
        e,
    )
}

/// A level record filled with an enchant route's fields.
pub open spec fn grp_fill_enchant(
    g: SkillGrpDatView,
    enchant: EnchantInfoView,
    gdn: Seq<Seq<char>>,
    level: u32,
) -> (SkillGrpDatView, Seq<Seq<char>>) {
    let (e, idx) = general_intern_all(gdn, seq![enchant.enchant_icon]);
    (
        SkillGrpDatView {
            debuff: bool_code(enchant.is_debuff) as u8,
            enchant_icon: idx[0] as u32,
            enchant_skill_level: level as u8,
            ..g
        },
        e,
    )
}

/// A level record filled with an enchant level's fields and its own icons.
pub open spec fn grp_fill_enchant_level(
    g: SkillGrpDatView,
    el: EnchantLevelInfoView,
    gdn: Seq<Seq<char>>,
    enchant_type: u32,
) -> (SkillGrpDatView, Seq<Seq<char>>) {
    let (e, idx) = general_intern_all(gdn, opt_texts(el.icon, el.icon_panel));
    let base = SkillGrpDatView {
        sub_level: sub_level_of(enchant_type, el.level),
        mp_consume: el.mp_cost,
        cast_range: el.cast_range,
        hit_time: el.hit_time,
        cool_time: el.cool_time,
        reuse_delay: el.reuse_delay,
        effect_point: el.effect_point,
        hp_consume: el.hp_cost,
        ..g
    };
    (icons_filled(base, el.icon, el.icon_panel, idx), e)
}

/// Pushes the present icons of a level, in order.
fn push_icons<'a>(texts: &mut Vec<&'a String>, icon: &'a Option<String>, icon_panel: &'a Option<String>)
    ensures
        final(texts)@.map_values(|x: &String| x@) == old(texts)@.map_values(|x: &String| x@) + opt_texts(
            opt_view(*icon),
            opt_view(*icon_panel),
        ),
{
    let ghost before = texts@.map_values(|x: &String| x@);
    match icon {
        Some(v) => texts.push(v),
        None => {},
    }
    match icon_panel {
        Some(v) => texts.push(v),
        None => {},
    }
    proof {
        assert(texts@.map_values(|x: &String| x@) =~= before + opt_texts(opt_view(*icon), opt_view(*icon_panel)));
    }
}

impl SkillGrpDat {
    /// Sets the numbers of the present icons from `idx`, which numbers their texts.
    fn set_icons(&mut self, icon: &Option<String>, icon_panel: &Option<String>, idx: &Vec<u32>)
        requires
            idx@.len() == opt_texts(opt_view(*icon), opt_view(*icon_panel)).len(),
        ensures
            final(self)@ == icons_filled(
                old(self)@,
                opt_view(*icon),
                opt_view(*icon_panel),
                idx@.map_values(|x: u32| x as int),
            ),
    {
        let mut off: usize = 0;
        if icon.is_some() {
            self.icon = idx[0];
            off = 1;
        }
        if icon_panel.is_some() {
            self.icon_panel = idx[off];
        }
    }

    /// Fills the record with the skill's own fields.
    pub fn fill_from_skill(&mut self, skill: &Skill, game_data_name: &mut L2GeneralStringTable)
        requires
            old(game_data_name)@.len() + skill.animations@.len() + 3 < u32::MAX,
        ensures
            (final(self)@, final(game_data_name)@) == grp_fill_skill(
                old(self)@,
                skill@,
                old(game_data_name)@,
            ),
    {
        let none = String::from_str("None");
        let mut texts: Vec<&String> = Vec::new();
        let k = skill.animations.len();
        let mut i: usize = 0;
        while i < k
            invariant
                i <= k,
                k == skill.animations@.len(),
                texts@.len() == i,
                forall|j: int| 0 <= j < i ==> (#[trigger] texts@[j])@ == skill.animations@[j]@,
            decreases k - i,
        {
            texts.push(&skill.animations[i]);
            i += 1;
        }
        texts.push(&skill.icon);
        texts.push(&skill.icon_panel);
        texts.push(&none);
        let ghost t = skill@.animations + seq![skill@.icon, skill@.icon_panel, "None"@];
        proof {
            assert(texts@.map_values(|x: &String| x@) =~= t);
            lemma_general_intern_all_len(old(game_data_name)@, t);
        }
        let idx = general_get_indices(game_data_name, &texts);
        let mut animation: Vec<u32> = Vec::new();
        let mut j: usize = 0;
        while j < k
            invariant
                j <= k,
                k + 3 == idx@.len(),
                animation@ =~= idx@.subrange(0, j as int),
            decreases k - j,
        {
            animation.push(idx[j]);
            j += 1;
        }
        self.id = #[verifier::truncate] (skill.id.0 as u16);
        self.skill_type = skill.skill_type;
        self.resist_cast = skill.resist_cast;
        self.magic_type = skill.magic_type;
        self.cast_style = skill.cast_style;
        self.skill_magic_type = skill.skill_magic_type;
        self.origin_skill = #[verifier::truncate] (skill.origin_skill.0 as i16);
        self.is_double = to_u32_bool(skill.is_double) as u8;
        self.animation = animation;
        self.skill_visual_effect = skill.visual_effect.0;
        self.icon = idx[k];
        self.icon_panel = idx[k + 1];
        self.debuff = to_u32_bool(skill.is_debuff) as u8;
        self.cast_bar_text_is_red = to_u32_bool(skill.is_debuff) as u8;
        self.enchant_skill_level = 0;
        self.enchant_icon = idx[k + 2];
        self.rumble_self = skill.rumble_self;
        self.rumble_target = skill.rumble_target;
        proof {
            let ii = general_intern_all(old(game_data_name)@, t).1;
            assert(idx@.map_values(|x: u32| x as int) == ii);
            assert(self.animation@ =~= as_u32s(ii.subrange(0, k as int)));
        }
    }

    /// Fills the record with a level's fields; `first` tells whether it is the
    /// skill's first level.
    pub fn fill_from_level(
        &mut self,
        level: &SkillLevelInfo,
        game_data_name: &mut L2GeneralStringTable,
        first: bool,
    )
        requires
            old(game_data_name)@.len() + 2 < u32::MAX,
        ensures
            (final(self)@, final(game_data_name)@) == grp_fill_level(
                old(self)@,
                level@,
                old(game_data_name)@,
                first,
            ),
    {
        let mut texts: Vec<&String> = Vec::new();
        if !first {
            push_icons(&mut texts, &level.icon, &level.icon_panel);
        }
        let ghost t = if first {
            Seq::<Seq<char>>::empty()
        } else {
            opt_texts(level@.icon, level@.icon_panel)
        };
        proof {
            assert(texts@.map_values(|x: &String| x@) =~= t);
            lemma_general_intern_all_len(old(game_data_name)@, t);
        }
        let idx = general_get_indices(game_data_name, &texts);
        self.level = #[verifier::truncate] (level.level as u8);
        self.mp_consume = level.mp_cost;
        self.cast_range = level.cast_range;
        self.hit_time = level.hit_time;
        self.cool_time = level.cool_time;
        self.reuse_delay = level.reuse_delay;
        self.effect_point = level.effect_point;
        self.hp_consume = level.hp_cost;
        if !first {
            self.set_icons(&level.icon, &level.icon_panel, &idx);
        }
    }

    /// Fills the record with an enchant route's fields; `level` is the skill level
    /// the route belongs to.
    pub fn fill_from_enchant(
        &mut self,
        enchant: &EnchantInfo,
        game_data_name: &mut L2GeneralStringTable,
        level: u32,
    )
        requires
            old(game_data_name)@.len() + 1 < u32::MAX,
        ensures
            (final(self)@, final(game_data_name)@) == grp_fill_enchant(
                old(self)@,
                enchant@,
                old(game_data_name)@,
                level,
            ),
    {
        let mut texts: Vec<&String> = Vec::new();
        texts.push(&enchant.enchant_icon);
        let ghost t = seq![enchant@.enchant_icon];
        proof {
            assert(texts@.map_values(|x: &String| x@) =~= t);
            lemma_general_intern_all_len(old(game_data_name)@, t);
        }
        let idx = general_get_indices(game_data_name, &texts);
        self.debuff = to_u32_bool(enchant.is_debuff) as u8;
        self.enchant_icon = idx[0];
        self.enchant_skill_level = #[verifier::truncate] (level as u8);
    }

    /// Fills the record with an enchant level's fields; `enchant_type` is the type of
    /// the route the level belongs to.
    pub fn fill_from_enchant_level(
        &mut self,
        enchant_level: &EnchantLevelInfo,
        game_data_name: &mut L2GeneralStringTable,
        enchant_type: u32,
    )
        requires
            old(game_data_name)@.len() + 2 < u32::MAX,
            enchant_type * 1000 + enchant_level.level <= u32::MAX,
        ensures
            (final(self)@, final(game_data_name)@) == grp_fill_enchant_level(
                old(self)@,
                enchant_level@,
                old(game_data_name)@,
                enchant_type,
            ),
    {
        let mut texts: Vec<&String> = Vec::new();
        push_icons(&mut texts, &enchant_level.icon, &enchant_level.icon_panel);
        let ghost t = opt_texts(enchant_level@.icon, enchant_level@.icon_panel);
        proof {
            assert(texts@.map_values(|x: &String| x@) =~= t);
            lemma_general_intern_all_len(old(game_data_name)@, t);
        }
        let idx = general_get_indices(game_data_name, &texts);
        self.sub_level = #[verifier::truncate] ((enchant_type * 1000 + enchant_level.level) as i16);
        self.mp_consume = enchant_level.mp_cost;
        self.cast_range = enchant_level.cast_range;
        self.hit_time = enchant_level.hit_time;
        self.cool_time = enchant_level.cool_time;
        self.reuse_delay = enchant_level.reuse_delay;
        self.effect_point = enchant_level.effect_point;
        self.hp_consume = enchant_level.hp_cost;
        self.set_icons(&enchant_level.icon, &enchant_level.icon_panel, &idx);
    }
}

// ------------------------------------------------------------------------------------------
// The text table of the name file
// ------------------------------------------------------------------------------------------

impl SkillNameTableRecord {
    /// The records of the text table at the head of `skillname-ru.dat`: each text
    /// with its number, in ascending order of number.
    pub fn from_table(value: L2SkillStringTable) -> (r: Vec<Self>)
        ensures
            r@.len() == value@.len(),
            forall|i: int| 0 <= i < r@.len() ==> (#[trigger] r@[i]).id == i && r@[i].val@ == value@[i],
    {
        let keys = value.keys();
        let total = value.len();
        let n = keys.len();
        let mut res: Vec<Self> = Vec::new();
        let mut i: usize = 0;
        while i < n
            invariant
                i <= n,
                keys@ == Seq::new(value@.len(), |k: int| k as u32),
                n == keys@.len(),
                total == value@.len(),
                total <= u32::MAX,
                res@.len() == i,
                forall|j: int| 0 <= j < i ==> (#[trigger] res@[j]).id == j && res@[j].val@ == value@[j],
            decreases n - i,
        {
            let key = keys[i];
            let v = value.index(key);
            res.push(SkillNameTableRecord { val: v.clone(), id: key });
            i += 1;
        }
        res
    }
}

// ------------------------------------------------------------------------------------------
// Writing all skills
// ------------------------------------------------------------------------------------------

/// A name record with every field zero.
pub open spec fn zero_name() -> SkillNameDat {
    SkillNameDat {
        id: 0,
        level: 0,
        sub_level: 0,
        prev_id: 0,
        prev_level: 0,
        prev_sub_level: 0,
        name: 0,
        desc: 0,
        desc_params: 0,
        enchant_name: 0,
        enchant_name_params: 0,
        enchant_desc: 0,
        enchant_desc_params: 0,
    }
}

/// What writing the skills has produced so far: both text tables, the level and
/// name records, and for each sound record the skill and the general table it was
/// numbered from.
pub struct SerState {
    pub gdn: Seq<Seq<char>>,
    pub sk: Seq<Seq<char>>,
    pub grps: Seq<SkillGrpDatView>,
    pub names: Seq<SkillNameDat>,
    pub sound_gdn: Seq<Seq<Seq<char>>>,
    pub sound_skills: Seq<SkillView>,
}

/// One enchant level written: both records filled further and pushed.
pub open spec fn el_step(
    es: (SerState, SkillGrpDatView, SkillNameDat),
    el: EnchantLevelInfoView,
    etype: u32,
) -> (SerState, SkillGrpDatView, SkillNameDat) {
    let (g1, gdn1) = grp_fill_enchant_level(es.1, el, es.0.gdn, etype);
    let (n1, sk1) = name_fill_enchant_level(es.2, el, es.0.sk, etype);
    (SerState { gdn: gdn1, sk: sk1, grps: es.0.grps.push(g1), names: es.0.names.push(n1), ..es.0 }, g1, n1)
}

/// The enchant levels of a route written in order.
pub open spec fn el_fold(
    es: (SerState, SkillGrpDatView, SkillNameDat),
    els: Seq<EnchantLevelInfoView>,
    etype: u32,
) -> (SerState, SkillGrpDatView, SkillNameDat)
    decreases els.len(),
{
    if els.len() == 0 {
        es
    } else {
        el_step(el_fold(es, els.drop_last(), etype), els.last(), etype)
    }
}

/// One enchant route written, starting from the level's records.
pub open spec fn enchant_step(
    st: SerState,
    g: SkillGrpDatView,
    n: SkillNameDat,
    e: EnchantInfoView,
    level: u32,
) -> SerState {
    let (g1, gdn1) = grp_fill_enchant(g, e, st.gdn, level);
    let (n1, sk1) = name_fill_enchant(n, e, st.sk, level);
    el_fold((SerState { gdn: gdn1, sk: sk1, ..st }, g1, n1), e.enchant_levels, e.enchant_type).0
}

/// The enchant routes of a level written in order.
pub open spec fn enchant_fold(
    st: SerState,
    g: SkillGrpDatView,
    n: SkillNameDat,
    es: Seq<EnchantInfoView>,
    level: u32,
) -> SerState
    decreases es.len(),
{
    if es.len() == 0 {
        st
    } else {
        enchant_step(enchant_fold(st, g, n, es.drop_last(), level), g, n, es.last(), level)
    }
}

/// One level written, starting from the skill's records, with its routes.
pub open spec fn level_step(
    st: SerState,
    g: SkillGrpDatView,
    n: SkillNameDat,
    l: SkillLevelInfoView,
    first: bool,
) -> SerState {
    let (g1, gdn1) = grp_fill_level(g, l, st.gdn, first);
    let (n1, sk1) = name_fill_level(n, l, st.sk, first);
    let st1 = SerState { gdn: gdn1, sk: sk1, grps: st.grps.push(g1), names: st.names.push(n1), ..st };
    enchant_fold(st1, g1, n1, l.available_enchants, l.level)
}

/// The levels of a skill written in order; the first is marked as such.
pub open spec fn level_fold(
    st: SerState,
    g: SkillGrpDatView,
    n: SkillNameDat,
    ls: Seq<SkillLevelInfoView>,
) -> SerState
    decreases ls.len(),
{
    if ls.len() == 0 {
        st
    } else {
        level_step(level_fold(st, g, n, ls.drop_last()), g, n, ls.last(), ls.len() == 1)
    }
}

/// One skill written: nothing for a skill without levels; otherwise its sound
/// record, then its levels.
pub open spec fn skill_step(st: SerState, s: SkillView) -> SerState {
    if s.skill_levels.len() == 0 {
        st
    } else {
        let gdn_s = general_intern_all(st.gdn, sound_texts(s.sound_info)).0;
        let (g0, gdn1) = grp_fill_skill(zero_grp(), s, gdn_s);
        let (n0, sk1) = name_fill_skill(zero_name(), s, st.sk);
        level_fold(
            SerState {
                gdn: gdn1,
                sk: sk1,
                sound_gdn: st.sound_gdn.push(st.gdn),
                sound_skills: st.sound_skills.push(s),
                ..st
            },
            g0,
            n0,
            s.skill_levels,
        )
    }
}

/// The skills written in order.
pub open spec fn skill_fold(st: SerState, ss: Seq<SkillView>) -> SerState
    decreases ss.len(),
{
    if ss.len() == 0 {
        st
    } else {
        skill_step(skill_fold(st, ss.drop_last()), ss.last())
    }
}

// Upper bounds on the texts that writing numbers, per table.

pub open spec fn el_count(els: Seq<EnchantLevelInfoView>) -> nat {
    3 * els.len()
}

pub open spec fn enchant_count(es: Seq<EnchantInfoView>) -> nat
    decreases es.len(),
{
    if es.len() == 0 {
        0
    } else {
        enchant_count(es.drop_last()) + 3 + el_count(es.last().enchant_levels)
    }
}

pub open spec fn level_count(ls: Seq<SkillLevelInfoView>) -> nat
    decreases ls.len(),
{
    if ls.len() == 0 {
        0
    } else {
        level_count(ls.drop_last()) + 2 + enchant_count(ls.last().available_enchants)
    }
}

pub open spec fn skill_count(s: SkillView) -> nat {
    50 + s.animations.len() + level_count(s.skill_levels)
}

pub open spec fn skills_count(ss: Seq<SkillView>) -> nat
    decreases ss.len(),
{
    if ss.len() == 0 {
        0
    } else {
        skills_count(ss.drop_last()) + skill_count(ss.last())
    }
}

/// Whether every enchant level of the routes has a sub-level that fits.
pub open spec fn enchants_writable(es: Seq<EnchantInfoView>) -> bool {
    forall|i: int, j: int|
        0 <= i < es.len() && 0 <= j < es[i].enchant_levels.len() ==> sub_level_fits(
            es[i].enchant_type,
            #[trigger] es[i].enchant_levels[j].level,
        )
}

/// Whether every level is numbered from 1 and its routes can be written.
pub open spec fn levels_writable(ls: Seq<SkillLevelInfoView>) -> bool {
    forall|i: int|
        0 <= i < ls.len() ==> (#[trigger] ls[i]).level >= 1 && enchants_writable(ls[i].available_enchants)
}

/// Whether every skill's levels can be written.
pub open spec fn skills_writable(ss: Seq<SkillView>) -> bool {
    forall|i: int| 0 <= i < ss.len() ==> levels_writable((#[trigger] ss[i]).skill_levels)
}

/// The value of the records written so far.
pub open spec fn grps_view(v: Seq<SkillGrpDat>) -> Seq<SkillGrpDatView> {
    v.map_values(|g: SkillGrpDat| g@)
}

proof fn lemma_opt_texts_len(a: Option<Seq<char>>, b: Option<Seq<char>>)
    ensures
        opt_texts(a, b).len() <= 2,
{
}

/// Writes the enchant levels of one route; `g` and `n` carry the records from one
/// level to the next.
fn write_enchant_levels(
    gdn: &mut L2GeneralStringTable,
    sk: &mut L2SkillStringTable,
    grps: &mut Vec<SkillGrpDat>,
    names: &mut Vec<SkillNameDat>,
    g: &mut SkillGrpDat,
    n: &mut SkillNameDat,
    els: &Vec<EnchantLevelInfo>,
    etype: u32,
    Ghost(st): Ghost<SerState>,
)
    requires
        st.gdn == old(gdn)@,
        st.sk == old(sk)@,
        st.grps == grps_view(old(grps)@),
        st.names == old(names)@,
        old(gdn)@.len() + el_count(els@.map_values(|e: EnchantLevelInfo| e@)) < u32::MAX,
        old(sk)@.len() + el_count(els@.map_values(|e: EnchantLevelInfo| e@)) < u32::MAX,
        forall|j: int| 0 <= j < els@.len() ==> sub_level_fits(etype, (#[trigger] els@[j]).level),
    ensures
        ({
            let r = el_fold((st, old(g)@, *old(n)), els@.map_values(|e: EnchantLevelInfo| e@), etype);
            &&& final(gdn)@ == r.0.gdn
            &&& final(sk)@ == r.0.sk
            &&& grps_view(final(grps)@) == r.0.grps
            &&& final(names)@ == r.0.names
            &&& final(g)@ == r.1
            &&& *final(n) == r.2
            &&& r.0.sound_gdn == st.sound_gdn
            &&& r.0.sound_skills == st.sound_skills
        }),
        final(gdn)@.len() <= old(gdn)@.len() + el_count(els@.map_values(|e: EnchantLevelInfo| e@)),
        final(sk)@.len() <= old(sk)@.len() + el_count(els@.map_values(|e: EnchantLevelInfo| e@)),
{
    let ghost v = els@.map_values(|e: EnchantLevelInfo| e@);
    let len = els.len();
    let mut i: usize = 0;
    while i < len
        invariant
            i <= len,
            len == els@.len(),
            v == els@.map_values(|e: EnchantLevelInfo| e@),
            forall|j: int| 0 <= j < els@.len() ==> sub_level_fits(etype, (#[trigger] els@[j]).level),
            old(gdn)@.len() + 3 * len < u32::MAX,
            old(sk)@.len() + 3 * len < u32::MAX,
            gdn@.len() <= old(gdn)@.len() + 3 * i,
            sk@.len() <= old(sk)@.len() + 3 * i,
            ({
                let r = el_fold((st, old(g)@, *old(n)), v.subrange(0, i as int), etype);
                &&& gdn@ == r.0.gdn
                &&& sk@ == r.0.sk
                &&& grps_view(grps@) == r.0.grps
                &&& names@ == r.0.names
                &&& g@ == r.1
                &&& *n == r.2
                &&& r.0.sound_gdn == st.sound_gdn
                &&& r.0.sound_skills == st.sound_skills
            }),
        decreases len - i,
    {
        let ghost before_gdn = gdn@;
        let ghost before_sk = sk@;
        let el = &els[i];
        proof {
            assert(v.subrange(0, i + 1).drop_last() =~= v.subrange(0, i as int));
            assert(v.subrange(0, i + 1).last() == el@);
        }
        g.fill_from_enchant_level(el, gdn, etype);
        n.fill_from_enchant_level(el, sk, etype);
        proof {
            lemma_opt_texts_len(el@.icon, el@.icon_panel);
            lemma_general_intern_all_len(before_gdn, opt_texts(el@.icon, el@.icon_panel));
            lemma_skill_intern_all_len(
                before_sk,
                seq![el@.enchant_name_params, el@.enchant_description_params, el@.skill_description_params],
            );
        }
        grps.push(g.duplicate());
        names.push(*n);
        i += 1;
        proof {
            let r = el_fold((st, old(g)@, *old(n)), v.subrange(0, i as int), etype);
            assert(grps_view(grps@) =~= r.0.grps);
        }
    }
    proof {
        assert(v.subrange(0, len as int) =~= v);
    }
}

/// Writes the enchant routes of one level, each starting from the level's records.
fn write_enchants(
    gdn: &mut L2GeneralStringTable,
    sk: &mut L2SkillStringTable,
    grps: &mut Vec<SkillGrpDat>,
    names: &mut Vec<SkillNameDat>,
    g: &SkillGrpDat,
    n: &SkillNameDat,
    es: &Vec<EnchantInfo>,
    level: u32,
    Ghost(st): Ghost<SerState>,
)
    requires
        st.gdn == old(gdn)@,
        st.sk == old(sk)@,
        st.grps == grps_view(old(grps)@),
        st.names == old(names)@,
        old(gdn)@.len() + enchant_count(es@.map_values(|e: EnchantInfo| e@)) < u32::MAX,
        old(sk)@.len() + enchant_count(es@.map_values(|e: EnchantInfo| e@)) < u32::MAX,
        enchants_writable(es@.map_values(|e: EnchantInfo| e@)),
    ensures
        ({
            let r = enchant_fold(st, g@, *n, es@.map_values(|e: EnchantInfo| e@), level);
            &&& final(gdn)@ == r.gdn
            &&& final(sk)@ == r.sk
            &&& grps_view(final(grps)@) == r.grps
            &&& final(names)@ == r.names
            &&& r.sound_gdn == st.sound_gdn
            &&& r.sound_skills == st.sound_skills
        }),
        final(gdn)@.len() <= old(gdn)@.len() + enchant_count(es@.map_values(|e: EnchantInfo| e@)),
        final(sk)@.len() <= old(sk)@.len() + enchant_count(es@.map_values(|e: EnchantInfo| e@)),
{
    let ghost v = es@.map_values(|e: EnchantInfo| e@);
    let len = es.len();
    let mut i: usize = 0;
    while i < len
        invariant
            i <= len,
            len == es@.len(),
            v == es@.map_values(|e: EnchantInfo| e@),
            enchants_writable(v),
            old(gdn)@.len() + enchant_count(v) < u32::MAX,
            old(sk)@.len() + enchant_count(v) < u32::MAX,
            gdn@.len() <= old(gdn)@.len() + enchant_count(v.subrange(0, i as int)),
            sk@.len() <= old(sk)@.len() + enchant_count(v.subrange(0, i as int)),
            enchant_count(v.subrange(0, i as int)) <= enchant_count(v),
            ({
                let r = enchant_fold(st, g@, *n, v.subrange(0, i as int), level);
                &&& gdn@ == r.gdn
                &&& sk@ == r.sk
                &&& grps_view(grps@) == r.grps
                &&& names@ == r.names
                &&& r.sound_gdn == st.sound_gdn
                &&& r.sound_skills == st.sound_skills
            }),
        decreases len - i,
    {
        let e = &es[i];
        let ghost pre = v.subrange(0, i as int);
        let ghost next = v.subrange(0, i + 1);
        proof {
            assert(next.drop_last() =~= pre);
            assert(next.last() == e@);
            lemma_enchant_count_prefix(v, i + 1);
            assert forall|j: int| 0 <= j < e.enchant_levels@.len() implies sub_level_fits(
                e.enchant_type,
                (#[trigger] e.enchant_levels@[j]).level,
            ) by {
                assert(v[i as int] == e@);
                assert(e@.enchant_levels[j] == e.enchant_levels@[j]@);
                assert(sub_level_fits(v[i as int].enchant_type, v[i as int].enchant_levels[j].level));
            }
        }
        let ghost before_gdn = gdn@;
        let ghost before_sk = sk@;
        let mut gg = g.duplicate();
        let mut nn = *n;
        gg.fill_from_enchant(e, gdn, level);
        nn.fill_from_enchant(e, sk, level);
        proof {
            lemma_general_intern_all_len(before_gdn, seq![e@.enchant_icon]);
            lemma_skill_intern_all_len(
                before_sk,
                seq![e@.enchant_description, e@.enchant_name, text_or(e@.skill_description, ""@)],
            );
            assert(el_count(e@.enchant_levels) == 3 * e.enchant_levels@.len());
        }
        let ghost st1 = SerState { gdn: gdn@, sk: sk@, ..enchant_fold(st, g@, *n, pre, level) };
        write_enchant_levels(gdn, sk, grps, names, &mut gg, &mut nn, &e.enchant_levels, e.enchant_type, Ghost(st1));
        i += 1;
    }
    proof {
        assert(v.subrange(0, len as int) =~= v);
    }
}

proof fn lemma_enchant_count_prefix(v: Seq<EnchantInfoView>, k: int)
    requires
        0 <= k <= v.len(),
    ensures
        enchant_count(v.subrange(0, k)) <= enchant_count(v),
    decreases v.len(),
{
    if k < v.len() {
        assert(v.drop_last().subrange(0, k) =~= v.subrange(0, k));
        lemma_enchant_count_prefix(v.drop_last(), k);
    } else {
        assert(v.subrange(0, k) =~= v);
    }
}

proof fn lemma_level_count_prefix(v: Seq<SkillLevelInfoView>, k: int)
    requires
        0 <= k <= v.len(),
    ensures
        level_count(v.subrange(0, k)) <= level_count(v),
    decreases v.len(),
{
    if k < v.len() {
        assert(v.drop_last().subrange(0, k) =~= v.subrange(0, k));
        lemma_level_count_prefix(v.drop_last(), k);
    } else {
        assert(v.subrange(0, k) =~= v);
    }
}

proof fn lemma_skills_count_prefix(v: Seq<SkillView>, k: int)
    requires
        0 <= k <= v.len(),
    ensures
        skills_count(v.subrange(0, k)) <= skills_count(v),
    decreases v.len(),
{
    if k < v.len() {
        assert(v.drop_last().subrange(0, k) =~= v.subrange(0, k));
        lemma_skills_count_prefix(v.drop_last(), k);
    } else {
        assert(v.subrange(0, k) =~= v);
    }
}

/// Writes the levels of one skill, each starting from the skill's records.
fn write_levels(
    gdn: &mut L2GeneralStringTable,
    sk: &mut L2SkillStringTable,
    grps: &mut Vec<SkillGrpDat>,
    names: &mut Vec<SkillNameDat>,
    g: &SkillGrpDat,
    n: &SkillNameDat,
    ls: &Vec<SkillLevelInfo>,
    Ghost(st): Ghost<SerState>,
)
    requires
        st.gdn == old(gdn)@,
        st.sk == old(sk)@,
        st.grps == grps_view(old(grps)@),
        st.names == old(names)@,
        old(gdn)@.len() + level_count(ls@.map_values(|l: SkillLevelInfo| l@)) < u32::MAX,
        old(sk)@.len() + level_count(ls@.map_values(|l: SkillLevelInfo| l@)) < u32::MAX,
        levels_writable(ls@.map_values(|l: SkillLevelInfo| l@)),
    ensures
        ({
            let r = level_fold(st, g@, *n, ls@.map_values(|l: SkillLevelInfo| l@));
            &&& final(gdn)@ == r.gdn
            &&& final(sk)@ == r.sk
            &&& grps_view(final(grps)@) == r.grps
            &&& final(names)@ == r.names
            &&& r.sound_gdn == st.sound_gdn
            &&& r.sound_skills == st.sound_skills
        }),
        final(gdn)@.len() <= old(gdn)@.len() + level_count(ls@.map_values(|l: SkillLevelInfo| l@)),
        final(sk)@.len() <= old(sk)@.len() + level_count(ls@.map_values(|l: SkillLevelInfo| l@)),
{
    let ghost v = ls@.map_values(|l: SkillLevelInfo| l@);
    let len = ls.len();
    let mut first = true;
    let mut i: usize = 0;
    while i < len
        invariant
            i <= len,
            len == ls@.len(),
            v == ls@.map_values(|l: SkillLevelInfo| l@),
            first == (i == 0),
            levels_writable(v),
            old(gdn)@.len() + level_count(v) < u32::MAX,
            old(sk)@.len() + level_count(v) < u32::MAX,
            gdn@.len() <= old(gdn)@.len() + level_count(v.subrange(0, i as int)),
            sk@.len() <= old(sk)@.len() + level_count(v.subrange(0, i as int)),
            ({
                let r = level_fold(st, g@, *n, v.subrange(0, i as int));
                &&& gdn@ == r.gdn
                &&& sk@ == r.sk
                &&& grps_view(grps@) == r.grps
                &&& names@ == r.names
                &&& r.sound_gdn == st.sound_gdn
                &&& r.sound_skills == st.sound_skills
            }),
        decreases len - i,
    {
        let l = &ls[i];
        let ghost pre = v.subrange(0, i as int);
        let ghost next = v.subrange(0, i + 1);
        proof {
            assert(next.drop_last() =~= pre);
            assert(next.last() == l@);
            assert(v[i as int] == l@);
            lemma_level_count_prefix(v, i + 1);
        }
        let ghost before_gdn = gdn@;
        let ghost before_sk = sk@;
        let mut gg = g.duplicate();
        let mut nn = *n;
        gg.fill_from_level(l, gdn, first);
        nn.fill_from_level(l, sk, first);
        proof {
            lemma_opt_texts_len(l@.icon, l@.icon_panel);
            let tg = if first {
                Seq::<Seq<char>>::empty()
            } else {
                opt_texts(l@.icon, l@.icon_panel)
            };
            lemma_general_intern_all_len(before_gdn, tg);
            let ts = if first {
                seq![l@.description_params]
            } else {
                seq![text_or(l@.description, "\0"@), l@.description_params]
            };
            lemma_skill_intern_all_len(before_sk, ts);
        }
        grps.push(gg.duplicate());
        names.push(nn);
        let ghost st1 = SerState {
            gdn: gdn@,
            sk: sk@,
            grps: grps_view(grps@),
            names: names@,
            ..level_fold(st, g@, *n, pre)
        };
        proof {
            assert(grps_view(grps@) =~= level_fold(st, g@, *n, pre).grps.push(gg@));
            assert(st1.grps == level_fold(st, g@, *n, pre).grps.push(gg@));
        }
        write_enchants(gdn, sk, grps, names, &gg, &nn, &l.available_enchants, l.level, Ghost(st1));
        first = false;
        i += 1;
    }
    proof {
        assert(v.subrange(0, len as int) =~= v);
    }
}

/// Whether the sound records are those of the skills and tables listed in `st`.
pub open spec fn sounds_match(sounds: Seq<SkillSoundDat>, srcs: Seq<SkillSoundSourceDat>, st: SerState) -> bool {
    &&& sounds.len() == st.sound_gdn.len()
    &&& srcs.len() == st.sound_gdn.len()
    &&& st.sound_skills.len() == st.sound_gdn.len()
    &&& forall|j: int|
        0 <= j < sounds.len() ==> is_sound_record(#[trigger] sounds[j], st.sound_skills[j], st.sound_gdn[j])
    &&& forall|j: int| 0 <= j < srcs.len() ==> is_source_record(#[trigger] srcs[j], st.sound_skills[j])
}

/// Writes one skill: nothing for a skill without levels; otherwise its sound
/// records, then its levels.
fn write_skill(
    gdn: &mut L2GeneralStringTable,
    sk: &mut L2SkillStringTable,
    grps: &mut Vec<SkillGrpDat>,
    names: &mut Vec<SkillNameDat>,
    sounds: &mut Vec<SkillSoundDat>,
    srcs: &mut Vec<SkillSoundSourceDat>,
    skill: &Skill,
    Ghost(st): Ghost<SerState>,
)
    requires
        st.gdn == old(gdn)@,
        st.sk == old(sk)@,
        st.grps == grps_view(old(grps)@),
        st.names == old(names)@,
        sounds_match(old(sounds)@, old(srcs)@, st),
        old(gdn)@.len() + skill_count(skill@) < u32::MAX,
        old(sk)@.len() + skill_count(skill@) < u32::MAX,
        levels_writable(skill@.skill_levels),
    ensures
        ({
            let r = skill_step(st, skill@);
            &&& final(gdn)@ == r.gdn
            &&& final(sk)@ == r.sk
            &&& grps_view(final(grps)@) == r.grps
            &&& final(names)@ == r.names
            &&& sounds_match(final(sounds)@, final(srcs)@, r)
        }),
        final(gdn)@.len() <= old(gdn)@.len() + skill_count(skill@),
        final(sk)@.len() <= old(sk)@.len() + skill_count(skill@),
{
    if skill.skill_levels.len() == 0 {
        return;
    }
    let ghost before_gdn = gdn@;
    let sound = skill.sound_data(gdn);
    let src = skill.sound_source_data();
    sounds.push(sound);
    srcs.push(src);
    proof {
        lemma_general_intern_all_len(before_gdn, sound_texts(skill@.sound_info));
        assert(sound_texts(skill@.sound_info).len() == 47);
    }
    let ghost gdn_s = gdn@;
    let mut g = SkillGrpDat::new();
    let mut n = SkillNameDat {
        id: 0,
        level: 0,
        sub_level: 0,
        prev_id: 0,
        prev_level: 0,
        prev_sub_level: 0,
        name: 0,
        desc: 0,
        desc_params: 0,
        enchant_name: 0,
        enchant_name_params: 0,
        enchant_desc: 0,
        enchant_desc_params: 0,
    };
    let ghost before_sk = sk@;
    g.fill_from_skill(skill, gdn);
    n.fill_from_skill(skill, sk);
    proof {
        lemma_general_intern_all_len(gdn_s, skill@.animations + seq![skill@.icon, skill@.icon_panel, "None"@]);
        lemma_skill_intern_all_len(before_sk, seq![skill@.name, skill@.description]);
    }
    let ghost st1 = SerState {
        gdn: gdn@,
        sk: sk@,
        sound_gdn: st.sound_gdn.push(st.gdn),
        sound_skills: st.sound_skills.push(skill@),
        ..st
    };
    proof {
        assert forall|j: int| 0 <= j < sounds@.len() implies is_sound_record(
            #[trigger] sounds@[j],
            st1.sound_skills[j],
            st1.sound_gdn[j],
        ) by {
            if j < old(sounds)@.len() {
                assert(sounds@[j] == old(sounds)@[j]);
            }
        }
        assert forall|j: int| 0 <= j < srcs@.len() implies is_source_record(
            #[trigger] srcs@[j],
            st1.sound_skills[j],
        ) by {
            if j < old(srcs)@.len() {
                assert(srcs@[j] == old(srcs)@[j]);
            }
        }
    }
    write_levels(gdn, sk, grps, names, &g, &n, &skill.skill_levels, Ghost(st1));
}

/// What writing all skills produces: the records of the four skill files and the
/// skill name table.
pub struct SkillBinaries {
    pub skill_grp: Vec<SkillGrpDat>,
    pub skill_name: Vec<SkillNameDat>,
    pub skill_sound: Vec<SkillSoundDat>,
    pub skill_sound_src: Vec<SkillSoundSourceDat>,
    pub skill_string_table: L2SkillStringTable,
}

/// The state before any skill is written: the general table as it is, everything
/// else empty.
pub open spec fn initial_state(gdn: Seq<Seq<char>>) -> SerState {
    SerState {
        gdn,
        sk: Seq::empty(),
        grps: Seq::empty(),
        names: Seq::empty(),
        sound_gdn: Seq::empty(),
        sound_skills: Seq::empty(),
    }
}

/// The values of a list of skills.
pub open spec fn skill_views(skills: Seq<&Skill>) -> Seq<SkillView> {
    skills.map_values(|s: &Skill| s@)
}

/// Writes the skills in the given order, as the save of the editor does: a skill
/// without levels is skipped; every other gets a sound and a sound-source record,
/// a level record and a name record for each level and for each enchant level.
/// Texts are numbered through `game_data_name` and a fresh skill name table.
pub fn skill_records(skills: &Vec<&Skill>, game_data_name: &mut L2GeneralStringTable) -> (r: SkillBinaries)
    requires
        old(game_data_name)@.len() + skills_count(skill_views(skills@)) < u32::MAX,
        skills_writable(skill_views(skills@)),
    ensures
        ({
            let st = skill_fold(initial_state(old(game_data_name)@), skill_views(skills@));
            &&& final(game_data_name)@ == st.gdn
            &&& r.skill_string_table@ == st.sk
            &&& grps_view(r.skill_grp@) == st.grps
            &&& r.skill_name@ == st.names
            &&& sounds_match(r.skill_sound@, r.skill_sound_src@, st)
        }),
{
    let ghost v = skill_views(skills@);
    let mut sk = L2SkillStringTable::default();
    let mut grps: Vec<SkillGrpDat> = Vec::new();
    let mut names: Vec<SkillNameDat> = Vec::new();
    let mut sounds: Vec<SkillSoundDat> = Vec::new();
    let mut srcs: Vec<SkillSoundSourceDat> = Vec::new();
    let len = skills.len();
    let mut i: usize = 0;
    proof {
        assert(grps_view(grps@) =~= Seq::<SkillGrpDatView>::empty());
        assert(v.subrange(0, 0) =~= Seq::<SkillView>::empty());
    }
    while i < len
        invariant
            i <= len,
            len == skills@.len(),
            v == skill_views(skills@),
            skills_writable(v),
            old(game_data_name)@.len() + skills_count(v) < u32::MAX,
            game_data_name@.len() <= old(game_data_name)@.len() + skills_count(v.subrange(0, i as int)),
            sk@.len() <= skills_count(v.subrange(0, i as int)),
            ({
                let r = skill_fold(initial_state(old(game_data_name)@), v.subrange(0, i as int));
                &&& game_data_name@ == r.gdn
                &&& sk@ == r.sk
                &&& grps_view(grps@) == r.grps
                &&& names@ == r.names
                &&& sounds_match(sounds@, srcs@, r)
            }),
        decreases len - i,
    {
        let skill = skills[i];
        let ghost pre = v.subrange(0, i as int);
        let ghost next = v.subrange(0, i + 1);
        proof {
            assert(next.drop_last() =~= pre);
            assert(next.last() == skill@);
            assert(v[i as int] == skill@);
            lemma_skills_count_prefix(v, i + 1);
        }
        let ghost st = skill_fold(initial_state(old(game_data_name)@), pre);
        write_skill(game_data_name, &mut sk, &mut grps, &mut names, &mut sounds, &mut srcs, skill, Ghost(st));
        i += 1;
    }
    proof {
        assert(v.subrange(0, len as int) =~= v);
    }
    SkillBinaries {
        skill_grp: grps,
        skill_name: names,
        skill_sound: sounds,
        skill_sound_src: srcs,
        skill_string_table: sk,
    }
}

/// The level record written for a skill level carries each of the level's costs and
/// times in the same-named column: hit time in `hit_time`, cool time in `cool_time`,
/// mp cost in `mp_consume`, hp cost in `hp_consume`, cast range, reuse delay and
/// effect point each in its own column, and the level number in `level`; the skill
/// columns of the record are kept.
pub proof fn law_level_record_columns(
    before: SkillGrpDat,
    level: SkillLevelInfo,
    gdn: Seq<Seq<char>>,
    first: bool,
    after: SkillGrpDat,
)
    requires
        after@ == grp_fill_level(before@, level@, gdn, first).0,
    ensures
        after.hit_time == level.hit_time,
        after.cool_time == level.cool_time,
        after.mp_consume == level.mp_cost,
        after.hp_consume == level.hp_cost,
        after.cast_range == level.cast_range,
        after.reuse_delay == level.reuse_delay,
        after.effect_point == level.effect_point,
        after.level == level.level as u8,
        after.id == before.id,
        after.sub_level == before.sub_level,
        after.skill_type == before.skill_type,
        after.debuff == before.debuff,
        first ==> after.icon == before.icon && after.icon_panel == before.icon_panel,
{
}

/// The record written for an enchant level carries each of its costs and times in
/// the same-named column, like a level record does.
pub proof fn law_enchant_level_record_columns(
    before: SkillGrpDat,
    el: EnchantLevelInfo,
    gdn: Seq<Seq<char>>,
    enchant_type: u32,
    after: SkillGrpDat,
)
    requires
        after@ == grp_fill_enchant_level(before@, el@, gdn, enchant_type).0,
    ensures
        after.hit_time == el.hit_time,
        after.cool_time == el.cool_time,
        after.mp_consume == el.mp_cost,
        after.hp_consume == el.hp_cost,
        after.cast_range == el.cast_range,
        after.reuse_delay == el.reuse_delay,
        after.effect_point == el.effect_point,
        after.level == before.level,
        after.id == before.id,
{
}

/// The record written for an enchant route marks the route's debuff flag as 1 or 0
/// and the enchant level in `enchant_skill_level`; the level's columns are kept.
pub proof fn law_enchant_record_columns(
    before: SkillGrpDat,
    enchant: EnchantInfo,
    gdn: Seq<Seq<char>>,
    level: u32,
    after: SkillGrpDat,
)
    requires
        after@ == grp_fill_enchant(before@, enchant@, gdn, level).0,
    ensures
        after.debuff == (if enchant.is_debuff { 1u8 } else { 0u8 }),
        after.enchant_skill_level == level as u8,
        after.hit_time == before.hit_time,
        after.cool_time == before.cool_time,
        after.mp_consume == before.mp_consume,
        after.level == before.level,
        after.sub_level == before.sub_level,
{
}

/// The record written for a skill carries the skill's own fields in the same-named
/// columns: id, type, resist cast, magic type, cast style, skill magic type, origin
/// skill, visual effect and rumbles; flags as 1 or 0, the cast-bar flag following
/// the debuff flag; the level columns are kept.
pub proof fn law_skill_record_columns(before: SkillGrpDat, skill: Skill, gdn: Seq<Seq<char>>, after: SkillGrpDat)
    requires
        after@ == grp_fill_skill(before@, skill@, gdn).0,
    ensures
        after.id == skill.id.0 as u16,
        after.skill_type == skill.skill_type,
        after.resist_cast == skill.resist_cast,
        after.magic_type == skill.magic_type,
        after.cast_style == skill.cast_style,
        after.skill_magic_type == skill.skill_magic_type,
        after.origin_skill == skill.origin_skill.0 as i16,
        after.skill_visual_effect == skill.visual_effect.0,
        after.rumble_self == skill.rumble_self,
        after.rumble_target == skill.rumble_target,
        after.is_double == (if skill.is_double { 1u8 } else { 0u8 }),
        after.debuff == (if skill.is_debuff { 1u8 } else { 0u8 }),
        after.cast_bar_text_is_red == after.debuff,
        after.enchant_skill_level == 0,
        after.hit_time == before.hit_time,
        after.cool_time == before.cool_time,
        after.mp_consume == before.mp_consume,
        after.level == before.level,
        after.sub_level == before.sub_level,
{
}

/// The name record written for a skill numbers its name and description: in the
/// skill table after writing, the entry under `name` is the skill's name and the
/// one under `desc` its description; the record carries the skill's id.
pub proof fn law_skill_name_record_texts(before: SkillNameDat, skill: Skill, sk: Seq<Seq<char>>)
    requires
        sk.len() + 2 < u32::MAX,
    ensures
        ({
            let (n, e) = name_fill_skill(before, skill@, sk);
            &&& e[n.name as int] == skill.name@
            &&& e[n.desc as int] == skill.description@
            &&& n.id == skill.id.0
            &&& n.sub_level == 0
        }),
{
    let t = seq![skill.name@, skill.description@];
    crate::string_table::lemma_skill_intern_all_texts(sk, t);
    let (e, idx) = skill_intern_all(sk, t);
    assert(0 <= idx[0] < e.len() && e[idx[0]] == t[0]);
    assert(0 <= idx[1] < e.len() && e[idx[1]] == t[1]);
}

/// The name record written for a level numbers the level's description parameters
/// under `desc_params`; a level other than the first also numbers its own
/// description ("\0" where it has none) under `desc`.
pub proof fn law_level_name_record_texts(before: SkillNameDat, level: SkillLevelInfo, sk: Seq<Seq<char>>, first: bool)
    requires
        sk.len() + 2 < u32::MAX,
    ensures
        ({
            let (n, e) = name_fill_level(before, level@, sk, first);
            &&& e[n.desc_params as int] == level.description_params@
            &&& !first ==> e[n.desc as int] == text_or(level@.description, "\0"@)
            &&& first ==> n.desc == before.desc
            &&& n.level == level.level as i16
        }),
{
    let t = if first {
        seq![level@.description_params]
    } else {
        seq![text_or(level@.description, "\0"@), level@.description_params]
    };
    crate::string_table::lemma_skill_intern_all_texts(sk, t);
    let (e, idx) = skill_intern_all(sk, t);
    assert(0 <= idx[0] < e.len() && e[idx[0]] == t[0]);
    if !first {
        assert(0 <= idx[1] < e.len() && e[idx[1]] == t[1]);
    }
}

/// The name record written for an enchant route numbers the route's description
/// under `enchant_desc`, its name under `enchant_name`, and the skill description
/// it carries ("" where none) under `desc`.
pub proof fn law_enchant_name_record_texts(before: SkillNameDat, enchant: EnchantInfo, sk: Seq<Seq<char>>, level: u32)
    requires
        sk.len() + 3 < u32::MAX,
    ensures
        ({
            let (n, e) = name_fill_enchant(before, enchant@, sk, level);
            &&& e[n.enchant_desc as int] == enchant.enchant_description@
            &&& e[n.enchant_name as int] == enchant.enchant_name@
            &&& e[n.desc as int] == text_or(enchant@.skill_description, ""@)
        }),
{
    let t = seq![enchant@.enchant_description, enchant@.enchant_name, text_or(enchant@.skill_description, ""@)];
    crate::string_table::lemma_skill_intern_all_texts(sk, t);
    let (e, idx) = skill_intern_all(sk, t);
    assert(0 <= idx[0] < e.len() && e[idx[0]] == t[0]);
    assert(0 <= idx[1] < e.len() && e[idx[1]] == t[1]);
    assert(0 <= idx[2] < e.len() && e[idx[2]] == t[2]);
}

/// The name record written for an enchant level numbers its enchant-name,
/// enchant-description and skill-description parameters under the same-named
/// columns.
pub proof fn law_enchant_level_name_record_texts(
    before: SkillNameDat,
    el: EnchantLevelInfo,
    sk: Seq<Seq<char>>,
    enchant_type: u32,
)
    requires
        sk.len() + 3 < u32::MAX,
    ensures
        ({
            let (n, e) = name_fill_enchant_level(before, el@, sk, enchant_type);
            &&& e[n.enchant_name_params as int] == el.enchant_name_params@
            &&& e[n.enchant_desc_params as int] == el.enchant_description_params@
            &&& e[n.desc_params as int] == el.skill_description_params@
        }),
{
    let t = seq![el@.enchant_name_params, el@.enchant_description_params, el@.skill_description_params];
    crate::string_table::lemma_skill_intern_all_texts(sk, t);
    let (e, idx) = skill_intern_all(sk, t);
    assert(0 <= idx[0] < e.len() && e[idx[0]] == t[0]);
    assert(0 <= idx[1] < e.len() && e[idx[1]] == t[1]);
    assert(0 <= idx[2] < e.len() && e[idx[2]] == t[2]);
}

/// The sound record written for a skill carries its id, its cast volume and radius
/// in `cast_volume` and `cast_rad`, and the volume, radius and delay of each spell
/// and shot effect, in that order, in the parameter columns of its position; the
/// explosion columns repeat shot values (the first explosion the first shot's, the
/// second the second's, the third the first shot's volume, the second shot's radius
/// and the third shot's delay).
pub proof fn law_sound_record_columns(r: SkillSoundDat, s: Skill, gdn: Seq<Seq<char>>)
    requires
        is_sound_record(r, s@, gdn),
    ensures
        r.id == s.id.0,
        r.level == 1,
        r.cast_volume == s.sound_info.vol,
        r.cast_rad == s.sound_info.rad,
        r.effect_params@[0] == s.sound_info.spell_effect_1.vol,
        r.effect_params@[1] == s.sound_info.spell_effect_1.rad,
        r.effect_params@[2] == s.sound_info.spell_effect_1.delay,
        r.effect_params@[3] == s.sound_info.spell_effect_2.vol,
        r.effect_params@[4] == s.sound_info.spell_effect_2.rad,
        r.effect_params@[5] == s.sound_info.spell_effect_2.delay,
        r.effect_params@[6] == s.sound_info.spell_effect_3.vol,
        r.effect_params@[7] == s.sound_info.spell_effect_3.rad,
        r.effect_params@[8] == s.sound_info.spell_effect_3.delay,
        r.effect_params@[9] == s.sound_info.shot_effect_1.vol,
        r.effect_params@[10] == s.sound_info.shot_effect_1.rad,
        r.effect_params@[11] == s.sound_info.shot_effect_1.delay,
        r.effect_params@[12] == s.sound_info.shot_effect_2.vol,
        r.effect_params@[13] == s.sound_info.shot_effect_2.rad,
        r.effect_params@[14] == s.sound_info.shot_effect_2.delay,
        r.effect_params@[15] == s.sound_info.shot_effect_3.vol,
        r.effect_params@[16] == s.sound_info.shot_effect_3.rad,
        r.effect_params@[17] == s.sound_info.shot_effect_3.delay,
        r.effect_params@[18] == s.sound_info.shot_effect_1.vol,
        r.effect_params@[19] == s.sound_info.shot_effect_1.rad,
        r.effect_params@[20] == s.sound_info.shot_effect_1.delay,
        r.effect_params@[21] == s.sound_info.shot_effect_2.vol,
        r.effect_params@[22] == s.sound_info.shot_effect_2.rad,
        r.effect_params@[23] == s.sound_info.shot_effect_2.delay,
        r.effect_params@[24] == s.sound_info.shot_effect_1.vol,
        r.effect_params@[25] == s.sound_info.shot_effect_2.rad,
        r.effect_params@[26] == s.sound_info.shot_effect_3.delay,
{
    let e = s@.sound_info.effects;
    assert(e[0] == s.sound_info.spell_effect_1@);
    assert(e[1] == s.sound_info.spell_effect_2@);
    assert(e[2] == s.sound_info.spell_effect_3@);
    assert(e[3] == s.sound_info.shot_effect_1@);
    assert(e[4] == s.sound_info.shot_effect_2@);
    assert(e[5] == s.sound_info.shot_effect_3@);
}

/// The sound-source record written for a skill carries its id and the source of
/// each effect at its position; the three explosion columns all carry the first
/// explosion effect's source.
pub proof fn law_source_record_columns(src: SkillSoundSourceDat, s: Skill)
    requires
        is_source_record(src, s@),
    ensures
        src.id == s.id.0,
        src.effects@[0] == s.sound_info.spell_effect_1.source,
        src.effects@[1] == s.sound_info.spell_effect_2.source,
        src.effects@[2] == s.sound_info.spell_effect_3.source,
        src.effects@[3] == s.sound_info.shot_effect_1.source,
        src.effects@[4] == s.sound_info.shot_effect_2.source,
        src.effects@[5] == s.sound_info.shot_effect_3.source,
        src.effects@[6] == s.sound_info.exp_effect_1.source,
        src.effects@[7] == s.sound_info.exp_effect_1.source,
        src.effects@[8] == s.sound_info.exp_effect_1.source,
{
    let e = s@.sound_info.effects;
    assert(e[0] == s.sound_info.spell_effect_1@);
    assert(e[1] == s.sound_info.spell_effect_2@);
    assert(e[2] == s.sound_info.spell_effect_3@);
    assert(e[3] == s.sound_info.shot_effect_1@);
    assert(e[4] == s.sound_info.shot_effect_2@);
    assert(e[5] == s.sound_info.shot_effect_3@);
    assert(e[6] == s.sound_info.exp_effect_1@);
}

} // verus!
