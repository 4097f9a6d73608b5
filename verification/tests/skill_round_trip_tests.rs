use la2world_editor::ids::{SkillId, VisualEffectId};
use la2world_editor::loader::Loader110;
use la2world_editor::skill::{
    EnchantInfo, EnchantLevelInfo, RacesSkillSoundInfo, Skill, SkillLevelInfo, SkillSoundInfo,
    SoundInfo,
};
use la2world_editor::skill_dat::SkillNameTableRecord;
use la2world_editor::string_table::L2GeneralStringTable;
use std::collections::HashSet;

fn sound(name: &str, vol: u32, rad: u32, delay: u32, source: u32) -> SoundInfo {
    SoundInfo { sound: name.to_string(), vol, rad, delay, source }
}

fn races(prefix: &str) -> RacesSkillSoundInfo {
    let t = |s: &str| format!("{prefix}.{s}");
    RacesSkillSoundInfo {
        mfighter: t("mf"),
        ffighter: t("ff"),
        mmagic: t("mm"),
        fmagic: t("fm"),
        melf: t("me"),
        felf: t("fe"),
        mdark_elf: t("mde"),
        fdark_elf: t("fde"),
        mdwarf: t("md"),
        fdwarf: t("fd"),
        morc: t("mo"),
        forc: t("fo"),
        mshaman: t("ms"),
        fshaman: t("fs"),
        mkamael: t("mk"),
        fkamael: t("fk"),
        mertheia: t("mer"),
        fertheia: t("fer"),
    }
}

fn level(n: u32, desc: Option<&str>) -> SkillLevelInfo {
    SkillLevelInfo {
        level: n,
        description_params: format!("{}", n * 10),
        mp_cost: 5 * n as i16,
        hp_cost: 0,
        cast_range: 40,
        hit_time: 0x3f80_0000,
        cool_time: 0,
        reuse_delay: 0x4120_0000,
        effect_point: -100,
        icon: None,
        icon_panel: None,
        description: desc.map(|s| s.to_string()),
        available_enchants: vec![],
    }
}

fn sample_skill() -> Skill {
    Skill {
        id: SkillId(3),
        name: "Power Strike".to_string(),
        description: "Strikes hard.".to_string(),
        skill_type: 1,
        resist_cast: 0,
        magic_type: 0,
        cast_style: 1,
        skill_magic_type: 0,
        origin_skill: SkillId(3),
        is_double: false,
        animations: vec!["CAST_MID".to_string(), "SHOT".to_string()],
        visual_effect: VisualEffectId(12),
        icon: "icon.skill0003".to_string(),
        icon_panel: "panel.skill0003".to_string(),
        cast_bar_text_is_red: true,
        rumble_self: 0,
        rumble_target: 1,
        skill_levels: vec![level(1, None), level(2, Some("Stronger.")), level(3, None)],
        is_debuff: true,
        sound_info: SkillSoundInfo {
            spell_effect_1: sound("s1", 1, 2, 3, 4),
            spell_effect_2: sound("s2", 5, 6, 7, 8),
            spell_effect_3: sound("s3", 9, 10, 11, 12),
            shot_effect_1: sound("h1", 13, 14, 15, 16),
            shot_effect_2: sound("h2", 17, 18, 19, 20),
            shot_effect_3: sound("h3", 21, 22, 23, 24),
            exp_effect_1: sound("e1", 13, 14, 15, 25),
            exp_effect_2: sound("e2", 17, 18, 19, 25),
            exp_effect_3: sound("e3", 13, 18, 23, 25),
            sound_before_cast: races("before"),
            sound_after_cast: races("after"),
            mextra_throw: "mthrow".to_string(),
            fextra_throw: "fthrow".to_string(),
            vol: 7,
            rad: 8,
        },
    }
}

fn write_and_read(skill: &Skill, names: Vec<String>) -> Option<Skill> {
    let mut writer = Loader110::new();
    writer.set_game_data_name(L2GeneralStringTable::from_vec(names));
    let mut ids = HashSet::new();
    ids.insert(skill.id.0);
    // put the skill into the writer through the holder the editor hands back
    let mut holder = writer.to_holder();
    holder.skill_holder.insert(skill.id.0, skill.clone());
    let mut writer = Loader110::from_holder(&holder);
    let out = writer.serialize_to_binary();
    let table = SkillNameTableRecord::from_table(out.skills.skill_string_table);
    let mut reader = Loader110::new();
    reader.set_game_data_name(L2GeneralStringTable::from_vec(out.game_data_name));
    reader.load_skills(
        out.skills.skill_grp,
        &out.skills.skill_sound,
        &out.skills.skill_sound_src,
        &table,
        &out.skills.skill_name,
        &ids,
    );
    reader.to_holder().skill_holder.get(&skill.id.0).cloned()
}

#[test]
fn skill_survives_write_and_read() {
    let s = sample_skill();
    assert_eq!(write_and_read(&s, vec!["None".to_string(), "Icon.Other".to_string()]), Some(s));
}

#[test]
fn skill_with_enchant_routes_survives_write_and_read() {
    let mut s = sample_skill();
    let el = |n: u32| EnchantLevelInfo {
        level: n,
        skill_description_params: format!("{n}%"),
        enchant_name_params: format!("+{n}"),
        enchant_description_params: format!("power +{n}"),
        mp_cost: 7,
        hp_cost: 0,
        cast_range: 40,
        hit_time: 0,
        cool_time: 0,
        reuse_delay: 0,
        effect_point: -120,
        icon: None,
        icon_panel: None,
    };
    s.skill_levels[0].available_enchants = vec![
        EnchantInfo {
            enchant_type: 1,
            skill_description: None,
            enchant_name: "Power".to_string(),
            enchant_icon: "icon.enchant_power".to_string(),
            enchant_description: "More power.".to_string(),
            is_debuff: false,
            enchant_levels: vec![el(1), el(2)],
        },
        EnchantInfo {
            enchant_type: 2,
            skill_description: Some("Cheaper strike.".to_string()),
            enchant_name: "Cost".to_string(),
            enchant_icon: "icon.enchant_cost".to_string(),
            enchant_description: "Less mana.".to_string(),
            is_debuff: true,
            enchant_levels: vec![el(1)],
        },
    ];
    assert_eq!(write_and_read(&s, vec![]), Some(s));
}

#[test]
fn texts_come_back_spelled_as_the_table_holds_them() {
    let s = sample_skill();
    let back = write_and_read(&s, vec!["ICON.SKILL0003".to_string()]).unwrap();
    assert_eq!(back.icon, "ICON.SKILL0003");
}

fn enchant_level(n: u32, icon: Option<&str>) -> EnchantLevelInfo {
    EnchantLevelInfo {
        level: n,
        skill_description_params: format!("{n}%"),
        enchant_name_params: format!("+{n}"),
        enchant_description_params: format!("power +{n}"),
        mp_cost: 7 + n as i16,
        hp_cost: 1,
        cast_range: 40,
        hit_time: 0,
        cool_time: 0,
        reuse_delay: 0,
        effect_point: -120,
        icon: icon.map(|s| s.to_string()),
        icon_panel: None,
    }
}

fn write_and_read_all(skills: &[Skill], names: Vec<String>) -> Vec<Option<Skill>> {
    let mut writer = Loader110::new();
    writer.set_game_data_name(L2GeneralStringTable::from_vec(names));
    let mut ids = HashSet::new();
    let mut holder = writer.to_holder();
    for s in skills {
        ids.insert(s.id.0);
        holder.skill_holder.insert(s.id.0, s.clone());
    }
    let mut writer = Loader110::from_holder(&holder);
    let out = writer.serialize_to_binary();
    let table = SkillNameTableRecord::from_table(out.skills.skill_string_table);
    let mut reader = Loader110::new();
    reader.set_game_data_name(L2GeneralStringTable::from_vec(out.game_data_name));
    reader.load_skills(
        out.skills.skill_grp,
        &out.skills.skill_sound,
        &out.skills.skill_sound_src,
        &table,
        &out.skills.skill_name,
        &ids,
    );
    let back = reader.to_holder();
    skills.iter().map(|s| back.skill_holder.get(&s.id.0).cloned()).collect()
}

#[test]
fn several_skills_survive_save_and_load() {
    let a = sample_skill();
    let mut b = sample_skill();
    b.id = SkillId(7);
    b.origin_skill = SkillId(7);
    b.name = "Shield Bash".to_string();
    b.description = "Stuns.".to_string();
    b.icon = "icon.skill0007".to_string();
    b.icon_panel = "panel.skill0007".to_string();
    b.skill_levels[1].icon = Some("icon.skill0007_2".to_string());
    b.skill_levels[1].available_enchants = vec![EnchantInfo {
        enchant_type: 3,
        skill_description: None,
        enchant_name: "Time".to_string(),
        enchant_icon: "icon.enchant_time".to_string(),
        enchant_description: "Longer stun.".to_string(),
        is_debuff: true,
        enchant_levels: vec![
            enchant_level(1, Some("icon.e1")),
            enchant_level(2, Some("icon.e2")),
            enchant_level(3, Some("icon.e3")),
        ],
    }];
    let back = write_and_read_all(&[b.clone(), a.clone()], vec!["None".to_string()]);
    assert_eq!(back, vec![Some(b), Some(a)]);
}

#[test]
fn enchant_level_without_icon_takes_the_icon_before_it() {
    let mut s = sample_skill();
    s.skill_levels[0].available_enchants = vec![EnchantInfo {
        enchant_type: 1,
        skill_description: None,
        enchant_name: "Power".to_string(),
        enchant_icon: "icon.enchant_power".to_string(),
        enchant_description: "More power.".to_string(),
        is_debuff: false,
        enchant_levels: vec![enchant_level(1, Some("icon.e1")), enchant_level(2, None)],
    }];
    let back = write_and_read(&s, vec![]).unwrap();
    let els = &back.skill_levels[0].available_enchants[0].enchant_levels;
    assert_eq!(els[0].icon, Some("icon.e1".to_string()));
    assert_eq!(els[1].icon, Some("icon.e1".to_string()));
}

#[test]
fn enchant_routes_come_back_in_ascending_order_of_type() {
    let mut s = sample_skill();
    let route = |t: u32, name: &str| EnchantInfo {
        enchant_type: t,
        skill_description: None,
        enchant_name: name.to_string(),
        enchant_icon: format!("icon.enchant_{name}"),
        enchant_description: format!("{name} route."),
        is_debuff: false,
        enchant_levels: vec![enchant_level(1, None)],
    };
    s.skill_levels[2].available_enchants = vec![route(5, "late"), route(2, "early")];
    let back = write_and_read(&s, vec![]).unwrap();
    let types: Vec<u32> = back.skill_levels[2].available_enchants.iter().map(|e| e.enchant_type).collect();
    assert_eq!(types, vec![2, 5]);
}
