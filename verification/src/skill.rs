//! Skills as the editor shows them.
use vstd::prelude::*;
use crate::ids::{SkillId, VisualEffectId};

verus! {

/// The text of an optional text.
pub open spec fn opt_view(o: Option<String>) -> Option<Seq<char>> {
    match o {
        Some(s) => Some(s@),
        None => None,
    }
}

/// One sound of a skill effect. Volume, radius and delay are the bits of the
/// 32-bit floats that the files hold.
#[derive(Clone, Debug, PartialEq)]
pub struct SoundInfo {
    pub sound: String,
    pub vol: u32,
    pub rad: u32,
    pub delay: u32,
    pub source: u32,
}

/// The value of a sound of a skill effect.
pub struct SoundInfoView {
    pub sound: Seq<char>,
    pub vol: u32,
    pub rad: u32,
    pub delay: u32,
    pub source: u32,
}

impl View for SoundInfo {
    type V = SoundInfoView;

    open spec fn view(&self) -> SoundInfoView {
        SoundInfoView {
            sound: self.sound@,
            vol: self.vol,
            rad: self.rad,
            delay: self.delay,
            source: self.source,
        }
    }
}

/// A sound for each race and sex of caster.
#[derive(Clone, Debug, PartialEq)]
pub struct RacesSkillSoundInfo {
    pub mfighter: String,
    pub ffighter: String,
    pub mmagic: String,
    pub fmagic: String,
    pub melf: String,
    pub felf: String,
    pub mdark_elf: String,
    pub fdark_elf: String,
    pub mdwarf: String,
    pub fdwarf: String,
    pub morc: String,
    pub forc: String,
    pub mshaman: String,
    pub fshaman: String,
    pub mkamael: String,
    pub fkamael: String,
    pub mertheia: String,
    pub fertheia: String,
}

impl View for RacesSkillSoundInfo {
    type V = Seq<Seq<char>>;

    /// The sounds, in the order of the file's columns.
    open spec fn view(&self) -> Seq<Seq<char>> {
        seq![
            self.mfighter@,
            self.ffighter@,
            self.mmagic@,
            self.fmagic@,
            self.melf@,
            self.felf@,
            self.mdark_elf@,
            self.fdark_elf@,
            self.mdwarf@,
            self.fdwarf@,
            self.morc@,
            self.forc@,
            self.mshaman@,
            self.fshaman@,
            self.mkamael@,
            self.fkamael@,
            self.mertheia@,
            self.fertheia@,
        ]
    }
}

/// The sounds of a skill.
#[derive(Clone, Debug, PartialEq)]
pub struct SkillSoundInfo {
    pub spell_effect_1: SoundInfo,
    pub spell_effect_2: SoundInfo,
    pub spell_effect_3: SoundInfo,
    pub shot_effect_1: SoundInfo,
    pub shot_effect_2: SoundInfo,
    pub shot_effect_3: SoundInfo,
    pub exp_effect_1: SoundInfo,
    pub exp_effect_2: SoundInfo,
    pub exp_effect_3: SoundInfo,
    pub sound_before_cast: RacesSkillSoundInfo,
    pub sound_after_cast: RacesSkillSoundInfo,
    pub mextra_throw: String,
    pub fextra_throw: String,
    pub vol: u32,
    pub rad: u32,
}

/// The value of the sounds of a skill; `effects` lists the spell, shot and
/// explosion effects, three of each, in that order.
pub struct SkillSoundInfoView {
    pub effects: Seq<SoundInfoView>,
    pub sound_before_cast: Seq<Seq<char>>,
    pub sound_after_cast: Seq<Seq<char>>,
    pub mextra_throw: Seq<char>,
    pub fextra_throw: Seq<char>,
    pub vol: u32,
    pub rad: u32,
}

impl View for SkillSoundInfo {
    type V = SkillSoundInfoView;

    open spec fn view(&self) -> SkillSoundInfoView {
        SkillSoundInfoView {
            effects: seq![
                self.spell_effect_1@,
                self.spell_effect_2@,
                self.spell_effect_3@,
                self.shot_effect_1@,
                self.shot_effect_2@,
                self.shot_effect_3@,
                self.exp_effect_1@,
                self.exp_effect_2@,
                self.exp_effect_3@,
            ],
            sound_before_cast: self.sound_before_cast@,
            sound_after_cast: self.sound_after_cast@,
            mextra_throw: self.mextra_throw@,
            fextra_throw: self.fextra_throw@,
            vol: self.vol,
            rad: self.rad,
        }
    }
}

/// One enchant level of a skill level. Hit, cool and reuse times are the bits of
/// the 32-bit floats that the files hold.
#[derive(Clone, Debug, PartialEq)]
pub struct EnchantLevelInfo {
    pub level: u32,
    pub skill_description_params: String,
    pub enchant_name_params: String,
    pub enchant_description_params: String,
    pub mp_cost: i16,
    pub hp_cost: i16,
    pub cast_range: u32,
    pub hit_time: u32,
    pub cool_time: u32,
    pub reuse_delay: u32,
    pub effect_point: i32,
    pub icon: Option<String>,
    pub icon_panel: Option<String>,
}

/// The value of an enchant level.
pub struct EnchantLevelInfoView {
    pub level: u32,
    pub skill_description_params: Seq<char>,
    pub enchant_name_params: Seq<char>,
    pub enchant_description_params: Seq<char>,
    pub mp_cost: i16,
    pub hp_cost: i16,
    pub cast_range: u32,
    pub hit_time: u32,
    pub cool_time: u32,
    pub reuse_delay: u32,
    pub effect_point: i32,
    pub icon: Option<Seq<char>>,
    pub icon_panel: Option<Seq<char>>,
}

impl View for EnchantLevelInfo {
    type V = EnchantLevelInfoView;

    open spec fn view(&self) -> EnchantLevelInfoView {
        EnchantLevelInfoView {
            level: self.level,
            skill_description_params: self.skill_description_params@,
            enchant_name_params: self.enchant_name_params@,
            enchant_description_params: self.enchant_description_params@,
            mp_cost: self.mp_cost,
            hp_cost: self.hp_cost,
            cast_range: self.cast_range,
            hit_time: self.hit_time,
            cool_time: self.cool_time,
            reuse_delay: self.reuse_delay,
            effect_point: self.effect_point,
            icon: opt_view(self.icon),
            icon_panel: opt_view(self.icon_panel),
        }
    }
}

/// One enchant route of a skill level, with its levels.
#[derive(Clone, Debug, PartialEq)]
pub struct EnchantInfo {
    pub enchant_type: u32,
    pub skill_description: Option<String>,
    pub enchant_name: String,
    pub enchant_icon: String,
    pub enchant_description: String,
    pub is_debuff: bool,
    pub enchant_levels: Vec<EnchantLevelInfo>,
}

/// The value of an enchant route.
pub struct EnchantInfoView {
    pub enchant_type: u32,
    pub skill_description: Option<Seq<char>>,
    pub enchant_name: Seq<char>,
    pub enchant_icon: Seq<char>,
    pub enchant_description: Seq<char>,
    pub is_debuff: bool,
    pub enchant_levels: Seq<EnchantLevelInfoView>,
}

impl View for EnchantInfo {
    type V = EnchantInfoView;

    open spec fn view(&self) -> EnchantInfoView {
        EnchantInfoView {
            enchant_type: self.enchant_type,
            skill_description: opt_view(self.skill_description),
            enchant_name: self.enchant_name@,
            enchant_icon: self.enchant_icon@,
            enchant_description: self.enchant_description@,
            is_debuff: self.is_debuff,
            enchant_levels: self.enchant_levels@.map_values(|l: EnchantLevelInfo| l@),
        }
    }
}

/// One level of a skill, with its enchant routes.
#[derive(Clone, Debug, PartialEq)]
pub struct SkillLevelInfo {
    pub level: u32,
    pub description_params: String,
    pub mp_cost: i16,
    pub hp_cost: i16,
    pub cast_range: u32,
    pub hit_time: u32,
    pub cool_time: u32,
    pub reuse_delay: u32,
    pub effect_point: i32,
    pub icon: Option<String>,
    pub icon_panel: Option<String>,
    pub description: Option<String>,
    pub available_enchants: Vec<EnchantInfo>,
}

/// The value of a skill level.
pub struct SkillLevelInfoView {
    pub level: u32,
    pub description_params: Seq<char>,
    pub mp_cost: i16,
    pub hp_cost: i16,
    pub cast_range: u32,
    pub hit_time: u32,
    pub cool_time: u32,
    pub reuse_delay: u32,
    pub effect_point: i32,
    pub icon: Option<Seq<char>>,
    pub icon_panel: Option<Seq<char>>,
    pub description: Option<Seq<char>>,
    pub available_enchants: Seq<EnchantInfoView>,
}

impl View for SkillLevelInfo {
    type V = SkillLevelInfoView;

    open spec fn view(&self) -> SkillLevelInfoView {
        SkillLevelInfoView {
            level: self.level,
            description_params: self.description_params@,
            mp_cost: self.mp_cost,
            hp_cost: self.hp_cost,
            cast_range: self.cast_range,
            hit_time: self.hit_time,
            cool_time: self.cool_time,
            reuse_delay: self.reuse_delay,
            effect_point: self.effect_point,
            icon: opt_view(self.icon),
            icon_panel: opt_view(self.icon_panel),
            description: opt_view(self.description),
            available_enchants: self.available_enchants@.map_values(|e: EnchantInfo| e@),
        }
    }
}

/// A skill of the game. `skill_type` is the type's code in the files; the
/// animations are named in upper case.
#[derive(Clone, Debug, PartialEq)]
pub struct Skill {
    pub id: SkillId,
    pub name: String,
    pub description: String,
    pub skill_type: u8,
    pub resist_cast: u8,
    pub magic_type: u8,
    pub cast_style: u8,
    pub skill_magic_type: u8,
    pub origin_skill: SkillId,
    pub is_double: bool,
    pub animations: Vec<String>,
    pub visual_effect: VisualEffectId,
    pub icon: String,
    pub icon_panel: String,
    pub cast_bar_text_is_red: bool,
    pub rumble_self: u8,
    pub rumble_target: u8,
    pub skill_levels: Vec<SkillLevelInfo>,
    pub is_debuff: bool,
    pub sound_info: SkillSoundInfo,
}

/// The value of a skill.
pub struct SkillView {
    pub id: SkillId,
    pub name: Seq<char>,
    pub description: Seq<char>,
    pub skill_type: u8,
    pub resist_cast: u8,
    pub magic_type: u8,
    pub cast_style: u8,
    pub skill_magic_type: u8,
    pub origin_skill: SkillId,
    pub is_double: bool,
    pub animations: Seq<Seq<char>>,
    pub visual_effect: VisualEffectId,
    pub icon: Seq<char>,
    pub icon_panel: Seq<char>,
    pub cast_bar_text_is_red: bool,
    pub rumble_self: u8,
    pub rumble_target: u8,
    pub skill_levels: Seq<SkillLevelInfoView>,
    pub is_debuff: bool,
    pub sound_info: SkillSoundInfoView,
}

impl View for Skill {
    type V = SkillView;

    open spec fn view(&self) -> SkillView {
        SkillView {
            id: self.id,
            name: self.name@,
            description: self.description@,
            skill_type: self.skill_type,
            resist_cast: self.resist_cast,
            magic_type: self.magic_type,
            cast_style: self.cast_style,
            skill_magic_type: self.skill_magic_type,
            origin_skill: self.origin_skill,
            is_double: self.is_double,
            animations: self.animations@.map_values(|a: String| a@),
            visual_effect: self.visual_effect,
            icon: self.icon@,
            icon_panel: self.icon_panel@,
            cast_bar_text_is_red: self.cast_bar_text_is_red,
            rumble_self: self.rumble_self,
            rumble_target: self.rumble_target,
            skill_levels: self.skill_levels@.map_values(|l: SkillLevelInfo| l@),
            is_debuff: self.is_debuff,
            sound_info: self.sound_info@,
        }
    }
}

/// The id and name of a skill, for lists.
pub struct SkillInfo {
    pub id: SkillId,
    pub name: String,
}

impl SkillInfo {
    /// The id and name of `value`.
    pub fn from(value: &Skill) -> (r: SkillInfo)
        ensures
            r.id == value.id,
            r.name@ == value.name@,
    {
        SkillInfo { id: value.id, name: value.name.clone() }
    }
}

} // verus!
