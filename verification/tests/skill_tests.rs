use la2world_editor::ids::{SkillId, VisualEffectId};
use la2world_editor::loader::Loader110;
use la2world_editor::skill::SkillInfo;
use la2world_editor::skill_dat::{
    SkillGrpDat, SkillNameDat, SkillNameTableRecord, SkillSoundDat, SkillSoundSourceDat,
};
use la2world_editor::skill_load::{
    name_key_of, name_map, skill_from_records, sound_map, sound_or_default, source_map,
    source_or_default, string_dict,
};
use la2world_editor::string_table::L2GeneralStringTable;
use std::collections::HashSet;

fn gdn() -> L2GeneralStringTable {
    L2GeneralStringTable::from_vec(
        ["icon.skill", "icon.panel", "Cast_Mid", "snd.hit", "icon.enchant", "icon.level2"]
            .iter()
            .map(|s| s.to_string())
            .collect(),
    )
}

fn grp(id: u16, level: u8, sub: i16) -> SkillGrpDat {
    let mut g = SkillGrpDat::new();
    g.id = id;
    g.level = level;
    g.sub_level = sub;
    g.icon = 0;
    g.icon_panel = 1;
    g.mp_consume = 10 + level as i16;
    g.skill_type = 1;
    g.origin_skill = -1;
    g.animation = vec![2];
    g.skill_visual_effect = 77;
    g
}

fn name(id: u32, level: i16, sub: i16, desc: u32) -> SkillNameDat {
    SkillNameDat {
        id,
        level,
        sub_level: sub,
        name: 0,
        desc,
        desc_params: 2,
        enchant_name: 3,
        enchant_name_params: 2,
        enchant_desc: 4,
        enchant_desc_params: 2,
        ..SkillNameDat::default()
    }
}

fn table() -> Vec<SkillNameTableRecord> {
    ["Power Strike", "Strikes hard.", "", "Power", "More power.", "\0", "Level two."]
        .iter()
        .enumerate()
        .map(|(i, s)| SkillNameTableRecord { val: s.to_string(), id: i as u32 })
        .collect()
}

fn records() -> Vec<SkillGrpDat> {
    let mut l2 = grp(3, 2, 0);
    l2.icon = 5;
    let mut e1 = grp(3, 1, 1001);
    e1.enchant_icon = 4;
    e1.debuff = 1;
    let e2 = grp(3, 1, 1002);
    vec![grp(3, 1, 0), e1, l2, e2]
}

fn names() -> Vec<SkillNameDat> {
    vec![name(3, 1, 0, 1), name(3, 2, 0, 6), name(3, 1, 1001, 1), name(3, 1, 1002, 1)]
}

#[test]
fn name_keys_separate_levels() {
    assert_eq!(name_key_of(3, 1, 0), (3u64 << 32) | (1 << 16));
    assert_eq!(name_key_of(3, -1, -2), (3u64 << 32) | (0xffff << 16) | 0xfffe);
    assert_ne!(name_key_of(3, 1, 2), name_key_of(3, 2, 1));
}

#[test]
fn dictionary_knows_not_exist() {
    let d = string_dict(&table());
    assert_eq!(d.get(&u32::MAX).map(|s| s.as_str()), Some("NOT EXIST"));
    assert_eq!(d.get(&3).map(|s| s.as_str()), Some("Power"));
    assert_eq!(d.len(), 8);
}

#[test]
fn missing_sound_records_read_as_zero() {
    let s = sound_map(&vec![]);
    let z = sound_or_default(&s, 3);
    assert_eq!(z.id, 0);
    assert_eq!(z.cast_sounds, [0u32; 18]);
    let src = source_map(&vec![SkillSoundSourceDat { id: 3, effects: [1, 2, 3, 4, 5, 6, 7, 8, 9] }]);
    assert_eq!(source_or_default(&src, 3).effects[8], 9);
    assert_eq!(source_or_default(&src, 4).effects, [0u32; 9]);
}

#[test]
fn skill_is_read_from_its_records() {
    let g = gdn();
    let d = string_dict(&table());
    let n = name_map(&names());
    let sound = sound_or_default(&sound_map(&vec![]), 3);
    let source = source_or_default(&source_map(&vec![]), 3);
    let s = skill_from_records(&g, &records(), &n, &d, &sound, &source).unwrap();
    assert_eq!(s.id, SkillId(3));
    assert_eq!(s.name, "Power Strike");
    assert_eq!(s.description, "Strikes hard.");
    assert_eq!(s.origin_skill, SkillId(u32::MAX));
    assert_eq!(s.animations, vec!["CAST_MID".to_string()]);
    assert_eq!(s.visual_effect, VisualEffectId(77));
    assert_eq!(s.icon, "icon.skill");
    assert_eq!(s.icon_panel, "icon.panel");
    assert_eq!(s.skill_levels.len(), 2);
    let l1 = &s.skill_levels[0];
    assert_eq!(l1.level, 1);
    assert_eq!(l1.mp_cost, 11);
    assert_eq!(l1.icon, None);
    assert_eq!(l1.description, None);
    assert_eq!(l1.available_enchants.len(), 1);
    let e = &l1.available_enchants[0];
    assert_eq!(e.enchant_type, 1);
    assert_eq!(e.enchant_name, "Power");
    assert_eq!(e.enchant_description, "More power.");
    assert_eq!(e.enchant_icon, "icon.enchant");
    assert!(e.is_debuff);
    assert_eq!(e.skill_description, None);
    assert_eq!(e.enchant_levels.len(), 2);
    assert_eq!(e.enchant_levels[0].level, 1);
    assert_eq!(e.enchant_levels[1].level, 2);
    let l2 = &s.skill_levels[1];
    assert_eq!(l2.level, 2);
    assert_eq!(l2.icon, Some("icon.level2".to_string()));
    assert_eq!(l2.description, Some("Level two.".to_string()));
    assert!(l2.available_enchants.is_empty());
    assert_eq!(s.sound_info.spell_effect_1.sound, "icon.skill");
    assert_eq!(SkillInfo::from(&s).name, "Power Strike");
}

#[test]
fn nul_description_reads_as_none() {
    let g = gdn();
    let d = string_dict(&table());
    let n = name_map(&vec![name(3, 1, 0, 1), name(3, 2, 0, 5)]);
    let sound = sound_or_default(&sound_map(&vec![]), 3);
    let source = source_or_default(&source_map(&vec![]), 3);
    let s = skill_from_records(&g, &vec![grp(3, 1, 0), grp(3, 2, 0)], &n, &d, &sound, &source).unwrap();
    assert_eq!(s.skill_levels[1].description, None);
}

#[test]
fn records_without_a_level_give_no_skill() {
    let g = gdn();
    let d = string_dict(&table());
    let n = name_map(&names());
    let sound = sound_or_default(&sound_map(&vec![]), 3);
    let source = source_or_default(&source_map(&vec![]), 3);
    let mut only_enchant = grp(3, 1, 1001);
    only_enchant.enchant_icon = 4;
    assert!(skill_from_records(&g, &vec![only_enchant], &n, &d, &sound, &source).is_none());
}

#[test]
fn loader_reads_listed_skills_only() {
    let mut l = Loader110::new();
    l.set_game_data_name(gdn());
    let mut recs = records();
    let mut other = grp(9, 1, 0);
    other.icon = 1;
    recs.push(other);
    let mut ids = HashSet::new();
    ids.insert(3u32);
    let sound = SkillSoundDat {
        id: 3,
        level: 1,
        effect_sounds: [3; 9],
        effect_params: [7; 27],
        cast_sounds: [3; 18],
        mextra_throw: 3,
        magic_sounds: [0; 18],
        fextra_throw: 0,
        cast_volume: 5,
        cast_rad: 6,
    };
    l.load_skills(recs, &vec![sound], &vec![], &table(), &names(), &ids);
    let h = l.to_holder();
    assert_eq!(h.skill_holder.len(), 1);
    let s = h.skill_holder.get(&3).unwrap();
    assert_eq!(s.sound_info.spell_effect_1.sound, "snd.hit");
    assert_eq!(s.sound_info.spell_effect_2.vol, 7);
    assert_eq!(s.sound_info.sound_before_cast.mfighter, "snd.hit");
    assert_eq!(s.sound_info.sound_after_cast.fertheia, "icon.skill");
    assert_eq!(s.sound_info.vol, 5);
    assert_eq!(s.sound_info.rad, 6);
    assert!(h.skill_holder.get(&9).is_none());
}

#[test]
fn saved_skills_write_one_record_per_level() {
    let mut l = Loader110::new();
    l.set_game_data_name(gdn());
    let mut ids = HashSet::new();
    ids.insert(3u32);
    l.load_skills(records(), &vec![], &vec![], &table(), &names(), &ids);
    let out = l.serialize_to_binary();
    // two levels and two enchant levels
    assert_eq!(out.skills.skill_grp.len(), 4);
    assert_eq!(out.skills.skill_name.len(), 4);
    assert_eq!(out.skills.skill_sound.len(), 1);
    assert_eq!(out.skills.skill_sound_src.len(), 1);
    assert_eq!(out.skills.skill_grp[0].id, 3);
    assert_eq!(out.skills.skill_grp[0].level, 1);
    assert!(out.quest_name.is_empty());
    assert_eq!(out.game_data_name[0], "icon.skill");
}
