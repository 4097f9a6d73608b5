use la2world_editor::changed_map::FHashMap;
use la2world_editor::entity::{Color, ItemNameDat, NpcNameDat};
use la2world_editor::ids::{ItemId, QuestId};
use la2world_editor::loader::Loader110;
use la2world_editor::string_table::L2GeneralStringTable;
use la2world_editor::weapon::{
    weapon_from_records, AdditionalItemGrpDat, CoordsXYZ, DropDatInfo, EnchantInfo, ItemBaseInfoDat,
    ItemStatDataDat, MeshDatInfo, WeaponGrpDat,
};
use std::collections::HashMap;

fn table() -> L2GeneralStringTable {
    L2GeneralStringTable::from_vec(vec![
        "Long Sword".to_string(),
        "icon.weapon_long_sword_i00".to_string(),
        "LineageWeapons.long_sword_m00_wp".to_string(),
        "LineageWeaponsTex.long_sword_t00_wp".to_string(),
        "ItemSound.sword_mid_1".to_string(),
    ])
}

fn sword_record(id: u32) -> WeaponGrpDat {
    WeaponGrpDat {
        id,
        drop_type: 1,
        drop_radius: 4,
        drop_info: vec![DropDatInfo { mesh: 2, texture: vec![3, 40] }],
        icon_1: 1,
        icon_2: 77,
        durability: -1,
        weight: 1560,
        crystallizable: 1,
        is_blessed: 2,
        related_quests_ids: vec![7, 65535],
        hand_stance_type: 5,
        mesh: vec![MeshDatInfo { mesh: 2, unk1: 9 }],
        texture: vec![3, 4],
        item_sound: vec![4, 100],
        effect: 50,
        weapon_type: 2,
        soulshot_count: 1,
        is_magic_weapon: 1,
        ertheia_fist_scale: 0x3f80_0000,
        enchant_info: vec![EnchantInfo {
            effect: 4,
            effect_offset: CoordsXYZ { x: 1, y: 2, z: 3 },
            effect_scale: 7,
            ..Default::default()
        }],
        variation_icon: vec![1],
        variation_effect_3: 6,
        is_ensoul: 1,
        ensoul_count: 2,
        ..Default::default()
    }
}

fn sword_name(id: u32) -> ItemNameDat {
    ItemNameDat {
        id,
        name_link: 0,
        additional_name: "+0".to_string(),
        description: "A sword".to_string(),
        popup: -1,
        default_action: "action_equip".to_string(),
        set_id: 12,
        color: 1,
        tooltip_texture_link: 999,
        is_trade: 1,
        is_drop: 0,
        keep_type: 3,
        ..Default::default()
    }
}

fn sword_base(id: u32) -> ItemBaseInfoDat {
    ItemBaseInfoDat { id, default_price: 136000, is_premium: 0 }
}

fn sword_add(id: u32) -> AdditionalItemGrpDat {
    AdditionalItemGrpDat { id, has_ani: 1, included_items: vec![57, 58], look_change: 1, hide_armor: 1, ..Default::default() }
}

fn sword_stats(id: u32) -> ItemStatDataDat {
    ItemStatDataDat { id, p_attack: 24, m_attack: 17, p_attack_speed: 379, p_critical: 0x4100_0000, ..Default::default() }
}

#[test]
fn weapon_is_built_from_its_records_and_the_name_table() {
    let t = table();
    let w = weapon_from_records(
        &sword_record(2),
        &sword_name(2),
        &sword_base(2),
        &sword_add(2),
        &sword_stats(2),
        &t,
    );
    let b = &w.base_info;
    assert_eq!(b.id, ItemId(2));
    assert_eq!(b.name, "Long Sword");
    assert_eq!(b.additional_name, "+0");
    assert_eq!(b.desc, "A sword");
    assert_eq!(b.popup, -1);
    assert_eq!(b.default_action, "action_equip");
    assert_eq!(b.set_id, 12);
    assert_eq!(b.tooltip_texture, "NameNotFound[999]");
    assert!(b.is_trade);
    assert!(!b.is_drop);
    assert_eq!(b.keep_type, 3);
    assert_eq!(b.durability, 65535);
    assert_eq!(b.weight, 1560);
    assert!(b.crystallizable);
    assert!(!b.is_blessed);
    assert_eq!(b.icons.icon_1, "icon.weapon_long_sword_i00");
    assert_eq!(b.icons.icon_2, "NameNotFound[77]");
    assert_eq!(b.icons.icon_3, "Long Sword");
    assert_eq!(b.default_price, 136000);
    assert!(!b.is_premium);
    assert_eq!(b.related_quests, vec![QuestId(7), QuestId(65535)]);
    assert!(b.additional_info.has_animation);
    assert_eq!(b.additional_info.include_items, vec![ItemId(57), ItemId(58)]);
    assert_eq!(b.additional_info.look_change, "icon.weapon_long_sword_i00");
    assert!(b.additional_info.hide_armor);
    assert!(!b.additional_info.hide_cloak);
    assert_eq!(b.drop_info.drop_type, 1);
    assert_eq!(b.drop_info.drop_radius, 4);
    assert_eq!(b.drop_info.drop_mesh_info.len(), 1);
    assert_eq!(b.drop_info.drop_mesh_info[0].mesh, "LineageWeapons.long_sword_m00_wp");
    assert_eq!(
        b.drop_info.drop_mesh_info[0].textures,
        vec!["LineageWeaponsTex.long_sword_t00_wp".to_string(), "NameNotFound[40]".to_string()]
    );
    assert_eq!(w.weapon_type, 2);
    assert_eq!(w.character_animation_type, 5);
    assert_eq!(w.battle_stats.p_attack, 24);
    assert_eq!(w.battle_stats.p_attack_speed, 379);
    assert_eq!(w.battle_stats.p_critical, 0x4100_0000);
    assert_eq!(w.ertheia_fists_scale, 0x3f80_0000);
    assert_eq!(w.mesh_info.len(), 1);
    assert_eq!(w.mesh_info[0].mesh, "LineageWeapons.long_sword_m00_wp");
    assert_eq!(w.mesh_info[0].unk, 9);
    assert_eq!(w.mesh_info[0].texture, "LineageWeaponsTex.long_sword_t00_wp");
    assert_eq!(w.sound, vec!["ItemSound.sword_mid_1".to_string(), "NameNotFound[100]".to_string()]);
    assert_eq!(w.effect, "NameNotFound[50]");
    assert_eq!(w.soulshot_count, 1);
    assert!(w.is_magic_weapon);
    assert!(!w.can_equip_hero);
    assert_eq!(w.enchant_info.len(), 1);
    assert_eq!(w.enchant_info[0].effect, "ItemSound.sword_mid_1");
    assert_eq!(w.enchant_info[0].effect_offset, CoordsXYZ { x: 1, y: 2, z: 3 });
    assert_eq!(w.enchant_info[0].effect_scale, 7);
    assert_eq!(w.variation_info.icon, vec!["icon.weapon_long_sword_i00".to_string()]);
    assert_eq!(w.variation_info.effect_3, 6);
    assert!(w.can_ensoul);
    assert_eq!(w.ensoul_count, 2);
}

#[test]
fn weapon_without_meshes_has_none() {
    let t = table();
    let mut rec = sword_record(3);
    rec.mesh = vec![];
    rec.texture = vec![];
    let w = weapon_from_records(&rec, &sword_name(3), &sword_base(3), &sword_add(3), &sword_stats(3), &t);
    assert!(w.mesh_info.is_empty());
}

#[test]
fn loader_reads_weapons_by_id_and_a_later_record_replaces_an_earlier() {
    let mut l = Loader110::new();
    l.set_game_data_name(table());
    let mut names = HashMap::new();
    let mut base = HashMap::new();
    let mut add = HashMap::new();
    let mut stats = HashMap::new();
    for id in [2u32, 3u32] {
        names.insert(id, sword_name(id));
        base.insert(id, sword_base(id));
        add.insert(id, sword_add(id));
        stats.insert(id, sword_stats(id));
    }
    let mut again = sword_record(2);
    again.weapon_type = 9;
    l.load_weapons(vec![sword_record(2), sword_record(3), again], &names, &base, &add, &stats);
    assert_eq!(l.weapons_count(), 2);
    let w = l.get_weapon(&2).unwrap();
    assert_eq!(w.weapon_type, 9);
    assert_eq!(w.base_info.id, ItemId(2));
    assert_eq!(l.get_weapon(&3).unwrap().base_info.name, "Long Sword");
    assert!(l.get_weapon(&4).is_none());
    let h = l.to_holder();
    assert!(!h.weapon_holder.is_unchanged());
    assert_eq!(h.weapon_holder.get(&2).unwrap().weapon_type, 9);
    assert_eq!(h.weapon_holder.len(), 2);
}

#[test]
fn holders_are_marked_changed_only_where_the_loader_wrote() {
    let mut l = Loader110::new();
    l.load_npcs(vec![NpcNameDat {
        id: 1,
        name: "Gremlin".to_string(),
        title: "".to_string(),
        title_color: Color { r: 0, g: 0, b: 0, a: 0 },
    }]);
    l.load_items(vec![]);
    let h = l.to_holder();
    assert!(!h.npc_holder.is_unchanged());
    assert!(h.item_holder.is_unchanged());
    assert!(h.quest_holder.is_unchanged());
    assert!(h.npc_strings.is_unchanged());
    assert!(h.weapon_holder.is_unchanged());
}

#[test]
fn map_counts_a_new_key_once_and_a_replaced_key_not_at_all() {
    let mut m: FHashMap<u32> = FHashMap::new();
    m.insert(5, 1);
    assert_eq!(m.len(), 1);
    m.insert(5, 2);
    assert_eq!(m.len(), 1);
    m.insert(6, 3);
    assert_eq!(m.len(), 2);
    assert_eq!(m.get(&5), Some(&2));
}
