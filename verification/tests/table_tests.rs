use la2world_editor::changed_map::FHashMap;
use la2world_editor::holder::{dat_file_key, GameDataHolder};
use la2world_editor::ids::{ItemId, NpcId};
use la2world_editor::loader::Loader110;
use la2world_editor::entity::{Color, Item, ItemNameDat, Npc, NpcNameDat};
use la2world_editor::string_table::{general_get_indices, L2GeneralStringTable, L2SkillStringTable};
use la2world_editor::text::{decimal_text, format_button_text};

#[test]
fn general_table_ignores_case() {
    let mut t = L2GeneralStringTable::from_vec(vec!["Icon.Sword".to_string(), "LineageNpc".to_string()]);
    assert!(!t.was_changed());
    assert_eq!(t.get_index("icon.sword"), 0);
    assert_eq!(t.get_index("LINEAGENPC"), 1);
    assert!(!t.was_changed());
    assert_eq!(t.len(), 2);
}

#[test]
fn general_table_adds_missing_text_and_marks_change() {
    let mut t = L2GeneralStringTable::from_vec(vec!["a".to_string()]);
    assert_eq!(t.get_index("New.Texture"), 1);
    assert!(t.was_changed());
    assert_eq!(t.index(1), "New.Texture");
    // asking again gives the same number and adds nothing
    assert_eq!(t.get_index("new.texture"), 1);
    assert_eq!(t.len(), 2);
}

#[test]
fn general_table_stores_empty_text_as_none() {
    let mut t = L2GeneralStringTable::default();
    assert_eq!(t.get_index(""), 0);
    assert_eq!(t.index(0), "None");
    assert_eq!(t.get_index("NONE"), 0);
    assert_eq!(t.get_index(""), 0);
    assert_eq!(t.len(), 1);
}

#[test]
fn general_table_finds_the_last_matching_text() {
    let mut t = L2GeneralStringTable::from_vec(vec!["Dup".to_string(), "x".to_string(), "DUP".to_string()]);
    assert_eq!(t.get_index("dup"), 2);
}

#[test]
fn general_table_vec_round_trip() {
    let v = vec!["b".to_string(), "A".to_string(), "b".to_string()];
    let t = L2GeneralStringTable::from_vec(v.clone());
    assert_eq!(t.to_vec(), v);
    assert_eq!(t.keys(), vec![0, 1, 2]);
    assert_eq!(t.get(&1).map(|s| s.as_str()), Some("A"));
    assert_eq!(t.get(&3), None);
}

#[test]
fn general_table_add_keeps_change_mark() {
    let mut t = L2GeneralStringTable::default();
    assert_eq!(t.add("z".to_string()), 0);
    assert!(!t.was_changed());
}

#[test]
fn general_indices_of_several_texts() {
    let mut t = L2GeneralStringTable::from_vec(vec!["x".to_string()]);
    let a = "X".to_string();
    let b = "y".to_string();
    let c = "Y".to_string();
    let r = general_get_indices(&mut t, &vec![&a, &b, &c]);
    assert_eq!(r, vec![0, 1, 1]);
    assert_eq!(t.len(), 2);
}

#[test]
fn skill_table_compares_exactly() {
    let mut t = L2SkillStringTable::from_vec(vec!["Power Strike".to_string()]);
    assert_eq!(t.get_index("Power Strike"), 0);
    assert_eq!(t.get_index("power strike"), 1);
    assert_eq!(t.get_index("power strike"), 1);
    assert_eq!(t.len(), 2);
    assert_eq!(t.index(1), "power strike");
}

#[test]
fn changed_map_marks_inserts() {
    let mut m: FHashMap<String> = FHashMap::new();
    assert!(m.is_unchanged());
    assert_eq!(m.changed_or_empty().len(), 0);
    m.insert(5, "five".to_string());
    m.insert(7, "seven".to_string());
    m.insert(5, "FIVE".to_string());
    assert!(!m.is_unchanged());
    assert_eq!(m.len(), 2);
    assert_eq!(m.get(&5).map(|s| s.as_str()), Some("FIVE"));
    assert_eq!(m.get(&6), None);
    let mut keys = m.keys();
    keys.sort();
    assert_eq!(keys, vec![5, 7]);
    let mut vals: Vec<String> = m.values().into_iter().cloned().collect();
    vals.sort();
    assert_eq!(vals, vec!["FIVE".to_string(), "seven".to_string()]);
    let c = m.changed_or_empty();
    assert_eq!(c.len(), 2);
    assert!(!c.is_unchanged());
}

#[test]
fn decimal_text_formats_numbers() {
    assert_eq!(decimal_text(0), "0");
    assert_eq!(decimal_text(7), "7");
    assert_eq!(decimal_text(1024), "1024");
    assert_eq!(decimal_text(u32::MAX), "4294967295");
}

#[test]
fn button_text_cuts_long_names() {
    assert_eq!(format_button_text("Short name"), "Short name");
    assert_eq!(format_button_text("abcdefghijklmnopqrs"), "abcdefghijklmnopqrs");
    assert_eq!(format_button_text("abcdefghijklmnopqrst"), "abcdefghijklmnopqr..");
    assert_eq!(format_button_text("Свиток телепортации в город"), "Свиток телепортаци..");
}

#[test]
fn dat_file_keys_are_lower_case() {
    assert_eq!(dat_file_key("SkillGrp.dat"), Some("skillgrp.dat".to_string()));
    assert_eq!(dat_file_key("L2GameDataName.dat"), Some("l2gamedataname.dat".to_string()));
    assert_eq!(dat_file_key("readme.txt"), None);
    assert_eq!(dat_file_key("Skill.DAT"), None);
    assert_eq!(dat_file_key(".dat"), Some(".dat".to_string()));
    assert_eq!(dat_file_key("dat"), None);
}

fn holder_with_one_npc_and_item() -> GameDataHolder {
    let mut loader = Loader110::new();
    loader.set_game_data_name(L2GeneralStringTable::from_vec(vec!["Sword".to_string()]));
    loader.load_npcs(vec![NpcNameDat {
        id: 20001,
        name: "Gremlin".to_string(),
        title: "".to_string(),
        title_color: Color { r: 1, g: 2, b: 3, a: 4 },
    }]);
    loader.load_items(vec![
        ItemNameDat { id: 1, name_link: 0, description: "sharp".to_string(), ..Default::default() },
        ItemNameDat { id: 2, name_link: 9, description: "".to_string(), ..Default::default() },
    ]);
    loader.to_holder()
}

#[test]
fn holder_names_entities_or_says_they_do_not_exist() {
    let h = holder_with_one_npc_and_item();
    assert_eq!(h.get_npc_name(&NpcId(20001)), "Gremlin");
    assert_eq!(h.get_npc_name(&NpcId(5)), "NpcId(5) Not Exist!");
    assert_eq!(h.get_item_name(&ItemId(1)), "Sword");
    assert_eq!(h.get_item_name(&ItemId(2)), "NameNotFound[9]");
    assert_eq!(h.get_item_name(&ItemId(3)), "ItemId(3) Not Exist!");
    let npc: &Npc = h.npc_holder.get(&20001).unwrap();
    assert_eq!(npc.title_color, Color { r: 1, g: 2, b: 3, a: 4 });
    let item: &Item = h.item_holder.get(&1).unwrap();
    assert_eq!(item.desc, "sharp");
}

#[test]
fn map_stays_unchanged_until_the_first_insert_and_changed_after() {
    let m: FHashMap<u32> = FHashMap::default();
    let c = m.clone();
    assert!(c.is_unchanged());
    let mut e = c.changed_or_empty();
    assert!(e.is_unchanged());
    assert_eq!(e.get(&1), None);
    assert_eq!(e.len(), 0);
    assert!(e.is_unchanged());
    e.insert(1, 10);
    assert!(!e.is_unchanged());
    let f = e.changed_or_empty().clone();
    assert!(!f.is_unchanged());
    assert_eq!(f.len(), 1);
    assert!(!f.keys().is_empty() && !f.is_unchanged());
}
