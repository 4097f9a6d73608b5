//! Weapons, and the records of `weapongrp.dat`, `item_baseinfo.dat`,
//! `additionalitemgrp.dat` and `itemstatdata.dat` they are built from. The floats
//! of the files are kept as their bits; the codes of kinds and types as the bytes
//! the files hold.
use vstd::prelude::*;
use crate::entity::{item_name, name_text, name_texts, names_of, texts, ItemNameDat};
use crate::ids::{ItemId, QuestId};
use crate::string_table::L2GeneralStringTable;

verus! {

/// A point or a scale in three axes (float bits).
#[derive(Clone, Copy, Debug, PartialEq, Eq, Structural, Default)]
pub struct CoordsXYZ {
    pub x: u32,
    pub y: u32,
    pub z: u32,
}

/// How a weapon looks at one enchant level.
#[derive(Clone, Copy, Debug, PartialEq, Eq, Structural, Default)]
pub struct EnchantInfo {
    pub effect: u32,
    pub effect_offset: CoordsXYZ,
    pub mesh_offset: CoordsXYZ,
    pub mesh_scale: CoordsXYZ,
    pub effect_velocity: u32,
    pub particle_scale: u32,
    pub effect_scale: u32,
    pub particle_offset: CoordsXYZ,
    pub ring_offset: CoordsXYZ,
    pub ring_scale: CoordsXYZ,
}

/// A mesh of a weapon.
#[derive(Clone, Copy, Debug, PartialEq, Eq, Structural, Default)]
pub struct MeshDatInfo {
    pub mesh: u32,
    pub unk1: u8,
}

/// A mesh of a dropped item, with its textures.
#[derive(Clone, Debug, Default)]
pub struct DropDatInfo {
    pub mesh: u32,
    pub texture: Vec<u32>,
}

/// A record of `weapongrp.dat`.
#[derive(Clone, Debug, Default)]
pub struct WeaponGrpDat {
    pub tag: u8,
    pub id: u32,
    pub drop_type: u8,
    pub drop_animation_type: u8,
    pub drop_radius: u8,
    pub drop_height: u8,
    pub drop_info: Vec<DropDatInfo>,
    pub icon_1: u32,
    pub icon_2: u32,
    pub icon_3: u32,
    pub icon_4: u32,
    pub icon_5: u32,
    pub durability: i16,
    pub weight: i16,
    pub material_type: u8,
    pub crystallizable: u8,
    pub related_quests_ids: Vec<u16>,
    pub color: u8,
    pub is_blessed: u8,
    pub property_params: i16,
    pub icon_panel: u32,
    pub complete_item_drop_sound: u32,
    pub inventory_type: u8,
    pub body_part: u8,
    pub hand_stance_type: u8,
    pub mesh: Vec<MeshDatInfo>,
    pub texture: Vec<u32>,
    pub item_sound: Vec<u32>,
    pub drop_sound: u32,
    pub equip_sound: u32,
    pub effect: u32,
    pub random_damage_type: u8,
    pub weapon_type: u8,
    pub crystal_type: u8,
    pub mp_consume: u8,
    pub soulshot_count: u8,
    pub spiritshot_count: u8,
    pub curvature: i16,
    pub unk_1: u8,
    pub can_equip_hero: u8,
    pub is_magic_weapon: u8,
    pub ertheia_fist_scale: u32,
    pub junk: i16,
    pub enchant_info: Vec<EnchantInfo>,
    pub variation_effect_1: u8,
    pub variation_effect_2: u8,
    pub variation_effect_3: u8,
    pub variation_effect_4: u8,
    pub variation_effect_5: u8,
    pub variation_effect_6: u8,
    pub variation_icon: Vec<u32>,
    pub ensoul_count: u8,
    pub is_ensoul: u8,
}

impl WeaponGrpDat {
    /// The id of the weapon the record describes.
    pub fn get_id(&self) -> (r: u32)
        ensures
            r == self.id,
    {
        self.id
    }
}

/// A record of `item_baseinfo.dat`.
#[derive(Clone, Copy, Debug, PartialEq, Eq, Structural, Default)]
pub struct ItemBaseInfoDat {
    pub id: u32,
    pub default_price: i64,
    pub is_premium: u32,
}

/// A record of `itemstatdata.dat`.
#[derive(Clone, Copy, Debug, PartialEq, Eq, Structural, Default)]
pub struct ItemStatDataDat {
    pub id: u32,
    pub p_defense: u16,
    pub m_defense: u16,
    pub p_attack: u16,
    pub m_attack: u16,
    pub p_attack_speed: u16,
    pub p_hit: u32,
    pub m_hit: u32,
    pub p_critical: u32,
    pub m_critical: u32,
    pub speed: u8,
    pub shield_defense: u16,
    pub shield_defense_rate: u8,
    pub p_avoid: u32,
    pub m_avoid: u32,
    pub property_params: u16,
}

/// A record of `additionalitemgrp.dat`.
#[derive(Clone, Debug, Default)]
pub struct AdditionalItemGrpDat {
    pub id: u32,
    pub has_ani: u8,
    pub included_items: Vec<u32>,
    pub max_energy: u32,
    pub look_change: u32,
    pub hide_cloak: u8,
    pub unk1: u8,
    pub hide_armor: u8,
}

/// The battle stats of an item.
#[derive(Clone, Copy, Debug, PartialEq, Eq, Structural, Default)]
pub struct ItemBattleStats {
    pub p_defense: u16,
    pub m_defense: u16,
    pub p_attack: u16,
    pub m_attack: u16,
    pub p_attack_speed: u16,
    pub p_hit: u32,
    pub m_hit: u32,
    pub p_critical: u32,
    pub m_critical: u32,
    pub speed: u8,
    pub shield_defense: u16,
    pub shield_defense_rate: u8,
    pub p_avoid: u32,
    pub m_avoid: u32,
    pub property_params: u16,
}

/// A mesh of a dropped item, with its textures.
pub struct ItemDropMeshInfo {
    pub mesh: String,
    pub textures: Vec<String>,
}

/// How an item looks and sounds when it lies on the ground.
pub struct ItemDropInfo {
    pub drop_type: u8,
    pub drop_animation_type: u8,
    pub drop_radius: u8,
    pub drop_height: u8,
    pub drop_mesh_info: Vec<ItemDropMeshInfo>,
    pub complete_item_drop_sound: String,
    pub drop_sound: String,
}

/// The icons of an item.
pub struct ItemIcons {
    pub icon_1: String,
    pub icon_2: String,
    pub icon_3: String,
    pub icon_4: String,
    pub icon_5: String,
    pub icon_panel: String,
}

/// What `additionalitemgrp.dat` says of an item.
pub struct ItemAdditionalInfo {
    pub has_animation: bool,
    pub include_items: Vec<ItemId>,
    pub max_energy: u32,
    pub look_change: String,
    pub hide_cloak: bool,
    pub unk: bool,
    pub hide_armor: bool,
}

/// What every kind of item has.
pub struct ItemBaseInfo {
    pub id: ItemId,
    pub name: String,
    pub additional_name: String,
    pub popup: i16,
    pub default_action: String,
    pub use_order: u32,
    pub set_id: i16,
    pub color: u8,
    pub tooltip_texture: String,
    pub is_trade: bool,
    pub is_drop: bool,
    pub is_destruct: bool,
    pub is_private_store: bool,
    pub is_npc_trade: bool,
    pub is_commission_store: bool,
    pub keep_type: u8,
    pub desc: String,
    pub inventory_type: u8,
    pub material: u8,
    pub body_part: u8,
    pub quality: u8,
    pub crystallizable: bool,
    pub crystal_type: u8,
    pub durability: u16,
    pub weight: u16,
    pub icons: ItemIcons,
    pub default_price: i64,
    pub is_premium: bool,
    pub is_blessed: bool,
    pub property_params: i16,
    pub related_quests: Vec<QuestId>,
    pub equip_sound: String,
    pub additional_info: ItemAdditionalInfo,
    pub drop_info: ItemDropInfo,
}

/// A mesh of a weapon with its texture.
pub struct WeaponMeshInfo {
    pub mesh: String,
    pub unk: u8,
    pub texture: String,
}

/// How a weapon looks at one enchant level.
pub struct WeaponEnchantInfo {
    pub effect: String,
    pub effect_offset: CoordsXYZ,
    pub effect_scale: u32,
    pub effect_velocity: u32,
    pub mesh_offset: CoordsXYZ,
    pub mesh_scale: CoordsXYZ,
    pub particle_offset: CoordsXYZ,
    pub particle_scale: u32,
    pub ring_offset: CoordsXYZ,
    pub ring_scale: CoordsXYZ,
}

/// The augmentation look of a weapon.
pub struct WeaponVariationInfo {
    pub icon: Vec<String>,
    pub effect_1: u8,
    pub effect_2: u8,
    pub effect_3: u8,
    pub effect_4: u8,
    pub effect_5: u8,
    pub effect_6: u8,
}

/// A weapon of the game.
pub struct Weapon {
    pub base_info: ItemBaseInfo,
    pub weapon_type: u8,
    pub character_animation_type: u8,
    pub battle_stats: ItemBattleStats,
    pub random_damage: u8,
    pub ertheia_fists_scale: u32,
    pub mesh_info: Vec<WeaponMeshInfo>,
    pub sound: Vec<String>,
    pub effect: String,
    pub mp_consume: u8,
    pub soulshot_count: u8,
    pub spiritshot_count: u8,
    pub curvature: i16,
    pub unk: bool,
    pub can_equip_hero: bool,
    pub is_magic_weapon: bool,
    pub enchant_junk: i16,
    pub enchant_info: Vec<WeaponEnchantInfo>,
    pub variation_info: WeaponVariationInfo,
    pub can_ensoul: bool,
    pub ensoul_count: u8,
}

/// The value of a drop mesh.
pub struct ItemDropMeshInfoView {
    pub mesh: Seq<char>,
    pub textures: Seq<Seq<char>>,
}

impl View for ItemDropMeshInfo {
    type V = ItemDropMeshInfoView;

    open spec fn view(&self) -> ItemDropMeshInfoView {
        ItemDropMeshInfoView { mesh: self.mesh@, textures: texts(self.textures@) }
    }
}

/// The value of the drop look of an item.
pub struct ItemDropInfoView {
    pub drop_type: u8,
    pub drop_animation_type: u8,
    pub drop_radius: u8,
    pub drop_height: u8,
    pub drop_mesh_info: Seq<ItemDropMeshInfoView>,
    pub complete_item_drop_sound: Seq<char>,
    pub drop_sound: Seq<char>,
}

impl View for ItemDropInfo {
    type V = ItemDropInfoView;

    open spec fn view(&self) -> ItemDropInfoView {
        ItemDropInfoView {
            drop_type: self.drop_type,
            drop_animation_type: self.drop_animation_type,
            drop_radius: self.drop_radius,
            drop_height: self.drop_height,
            drop_mesh_info: self.drop_mesh_info@.map_values(|m: ItemDropMeshInfo| m@),
            complete_item_drop_sound: self.complete_item_drop_sound@,
            drop_sound: self.drop_sound@,
        }
    }
}

/// The value of the icons of an item.
pub struct ItemIconsView {
    pub icon_1: Seq<char>,
    pub icon_2: Seq<char>,
    pub icon_3: Seq<char>,
    pub icon_4: Seq<char>,
    pub icon_5: Seq<char>,
    pub icon_panel: Seq<char>,
}

impl View for ItemIcons {
    type V = ItemIconsView;

    open spec fn view(&self) -> ItemIconsView {
        ItemIconsView {
            icon_1: self.icon_1@,
            icon_2: self.icon_2@,
            icon_3: self.icon_3@,
            icon_4: self.icon_4@,
            icon_5: self.icon_5@,
            icon_panel: self.icon_panel@,
        }
    }
}

/// The value of the additional information of an item.
pub struct ItemAdditionalInfoView {
    pub has_animation: bool,
    pub include_items: Seq<ItemId>,
    pub max_energy: u32,
    pub look_change: Seq<char>,
    pub hide_cloak: bool,
    pub unk: bool,
    pub hide_armor: bool,
}

impl View for ItemAdditionalInfo {
    type V = ItemAdditionalInfoView;

    open spec fn view(&self) -> ItemAdditionalInfoView {
        ItemAdditionalInfoView {
            has_animation: self.has_animation,
            include_items: self.include_items@,
            max_energy: self.max_energy,
            look_change: self.look_change@,
            hide_cloak: self.hide_cloak,
            unk: self.unk,
            hide_armor: self.hide_armor,
        }
    }
}

/// The value of what every kind of item has.
pub struct ItemBaseInfoView {
    pub id: ItemId,
    pub name: Seq<char>,
    pub additional_name: Seq<char>,
    pub popup: i16,
    pub default_action: Seq<char>,
    pub use_order: u32,
    pub set_id: i16,
    pub color: u8,
    pub tooltip_texture: Seq<char>,
    pub is_trade: bool,
    pub is_drop: bool,
    pub is_destruct: bool,
    pub is_private_store: bool,
    pub is_npc_trade: bool,
    pub is_commission_store: bool,
    pub keep_type: u8,
    pub desc: Seq<char>,
    pub inventory_type: u8,
    pub material: u8,
    pub body_part: u8,
    pub quality: u8,
    pub crystallizable: bool,
    pub crystal_type: u8,
    pub durability: u16,
    pub weight: u16,
    pub icons: ItemIconsView,
    pub default_price: i64,
    pub is_premium: bool,
    pub is_blessed: bool,
    pub property_params: i16,
    pub related_quests: Seq<QuestId>,
    pub equip_sound: Seq<char>,
    pub additional_info: ItemAdditionalInfoView,
    pub drop_info: ItemDropInfoView,
}

impl View for ItemBaseInfo {
    type V = ItemBaseInfoView;

    open spec fn view(&self) -> ItemBaseInfoView {
        ItemBaseInfoView {
            id: self.id,
            name: self.name@,
            additional_name: self.additional_name@,
            popup: self.popup,
            default_action: self.default_action@,
            use_order: self.use_order,
            set_id: self.set_id,
            color: self.color,
            tooltip_texture: self.tooltip_texture@,
            is_trade: self.is_trade,
            is_drop: self.is_drop,
            is_destruct: self.is_destruct,
            is_private_store: self.is_private_store,
            is_npc_trade: self.is_npc_trade,
            is_commission_store: self.is_commission_store,
            keep_type: self.keep_type,
            desc: self.desc@,
            inventory_type: self.inventory_type,
            material: self.material,
            body_part: self.body_part,
            quality: self.quality,
            crystallizable: self.crystallizable,
            crystal_type: self.crystal_type,
            durability: self.durability,
            weight: self.weight,
            icons: self.icons@,
            default_price: self.default_price,
            is_premium: self.is_premium,
            is_blessed: self.is_blessed,
            property_params: self.property_params,
            related_quests: self.related_quests@,
            equip_sound: self.equip_sound@,
            additional_info: self.additional_info@,
            drop_info: self.drop_info@,
        }
    }
}

/// The value of a weapon mesh.
pub struct WeaponMeshInfoView {
    pub mesh: Seq<char>,
    pub unk: u8,
    pub texture: Seq<char>,
}

impl View for WeaponMeshInfo {
    type V = WeaponMeshInfoView;

    open spec fn view(&self) -> WeaponMeshInfoView {
        WeaponMeshInfoView { mesh: self.mesh@, unk: self.unk, texture: self.texture@ }
    }
}

/// The value of the look of a weapon at one enchant level.
pub struct WeaponEnchantInfoView {
    pub effect: Seq<char>,
    pub effect_offset: CoordsXYZ,
    pub effect_scale: u32,
    pub effect_velocity: u32,
    pub mesh_offset: CoordsXYZ,
    pub mesh_scale: CoordsXYZ,
    pub particle_offset: CoordsXYZ,
    pub particle_scale: u32,
    pub ring_offset: CoordsXYZ,
    pub ring_scale: CoordsXYZ,
}

impl View for WeaponEnchantInfo {
    type V = WeaponEnchantInfoView;

    open spec fn view(&self) -> WeaponEnchantInfoView {
        WeaponEnchantInfoView {
            effect: self.effect@,
            effect_offset: self.effect_offset,
            effect_scale: self.effect_scale,
            effect_velocity: self.effect_velocity,
            mesh_offset: self.mesh_offset,
            mesh_scale: self.mesh_scale,
            particle_offset: self.particle_offset,
            particle_scale: self.particle_scale,
            ring_offset: self.ring_offset,
            ring_scale: self.ring_scale,
        }
    }
}

/// The value of the augmentation look of a weapon.
pub struct WeaponVariationInfoView {
    pub icon: Seq<Seq<char>>,
    pub effect_1: u8,
    pub effect_2: u8,
    pub effect_3: u8,
    pub effect_4: u8,
    pub effect_5: u8,
    pub effect_6: u8,
}

impl View for WeaponVariationInfo {
    type V = WeaponVariationInfoView;

    open spec fn view(&self) -> WeaponVariationInfoView {
        WeaponVariationInfoView {
            icon: texts(self.icon@),
            effect_1: self.effect_1,
            effect_2: self.effect_2,
            effect_3: self.effect_3,
            effect_4: self.effect_4,
            effect_5: self.effect_5,
            effect_6: self.effect_6,
        }
    }
}

/// The value of a weapon.
pub struct WeaponView {
    pub base_info: ItemBaseInfoView,
    pub weapon_type: u8,
    pub character_animation_type: u8,
    pub battle_stats: ItemBattleStats,
    pub random_damage: u8,
    pub ertheia_fists_scale: u32,
    pub mesh_info: Seq<WeaponMeshInfoView>,
    pub sound: Seq<Seq<char>>,
    pub effect: Seq<char>,
    pub mp_consume: u8,
    pub soulshot_count: u8,
    pub spiritshot_count: u8,
    pub curvature: i16,
    pub unk: bool,
    pub can_equip_hero: bool,
    pub is_magic_weapon: bool,
    pub enchant_junk: i16,
    pub enchant_info: Seq<WeaponEnchantInfoView>,
    pub variation_info: WeaponVariationInfoView,
    pub can_ensoul: bool,
    pub ensoul_count: u8,
}

impl View for Weapon {
    type V = WeaponView;

    open spec fn view(&self) -> WeaponView {
        WeaponView {
            base_info: self.base_info@,
            weapon_type: self.weapon_type,
            character_animation_type: self.character_animation_type,
            battle_stats: self.battle_stats,
            random_damage: self.random_damage,
            ertheia_fists_scale: self.ertheia_fists_scale,
            mesh_info: self.mesh_info@.map_values(|m: WeaponMeshInfo| m@),
            sound: texts(self.sound@),
            effect: self.effect@,
            mp_consume: self.mp_consume,
            soulshot_count: self.soulshot_count,
            spiritshot_count: self.spiritshot_count,
            curvature: self.curvature,
            unk: self.unk,
            can_equip_hero: self.can_equip_hero,
            is_magic_weapon: self.is_magic_weapon,
            enchant_junk: self.enchant_junk,
            enchant_info: self.enchant_info@.map_values(|e: WeaponEnchantInfo| e@),
            variation_info: self.variation_info@,
            can_ensoul: self.can_ensoul,
            ensoul_count: self.ensoul_count,
        }
    }
}

/// A record can be read into a weapon: every mesh has a texture at its position.
pub open spec fn weapon_readable(w: WeaponGrpDat) -> bool {
    w.texture@.len() >= w.mesh@.len()
}

/// The meshes of a weapon record, each with the texture at its position.
pub open spec fn mesh_infos(w: WeaponGrpDat, names: Seq<Seq<char>>) -> Seq<WeaponMeshInfoView> {
    Seq::new(
        w.mesh@.len(),
        |i: int|
            WeaponMeshInfoView {
                mesh: item_name(names, w.mesh@[i].mesh),
                unk: w.mesh@[i].unk1,
                texture: item_name(names, w.texture@[i]),
            },
    )
}

/// The drop mesh that a drop record describes.
pub open spec fn drop_mesh_info(d: DropDatInfo, names: Seq<Seq<char>>) -> ItemDropMeshInfoView {
    ItemDropMeshInfoView { mesh: item_name(names, d.mesh), textures: names_of(names, d.texture@) }
}

/// The enchant look that an enchant record describes.
pub open spec fn enchant_info(e: EnchantInfo, names: Seq<Seq<char>>) -> WeaponEnchantInfoView {
    WeaponEnchantInfoView {
        effect: item_name(names, e.effect),
        effect_offset: e.effect_offset,
        effect_scale: e.effect_scale,
        effect_velocity: e.effect_velocity,
        mesh_offset: e.mesh_offset,
        mesh_scale: e.mesh_scale,
        particle_offset: e.particle_offset,
        particle_scale: e.particle_scale,
        ring_offset: e.ring_offset,
        ring_scale: e.ring_scale,
    }
}

/// The drop look of a weapon record.
pub open spec fn drop_info_of(w: WeaponGrpDat, names: Seq<Seq<char>>) -> ItemDropInfoView {
    ItemDropInfoView {
        drop_type: w.drop_type,
        drop_animation_type: w.drop_animation_type,
        drop_radius: w.drop_radius,
        drop_height: w.drop_height,
        drop_mesh_info: w.drop_info@.map_values(|d: DropDatInfo| drop_mesh_info(d, names)),
        complete_item_drop_sound: item_name(names, w.complete_item_drop_sound),
        drop_sound: item_name(names, w.drop_sound),
    }
}

/// What `additionalitemgrp.dat` says of an item.
pub open spec fn additional_info_of(add: AdditionalItemGrpDat, names: Seq<Seq<char>>) -> ItemAdditionalInfoView {
    ItemAdditionalInfoView {
        has_animation: add.has_ani == 1,
        include_items: add.included_items@.map_values(|v: u32| ItemId(v)),
        max_energy: add.max_energy,
        look_change: item_name(names, add.look_change),
        hide_cloak: add.hide_cloak == 1,
        unk: add.unk1 == 1,
        hide_armor: add.hide_armor == 1,
    }
}

/// What every kind of item has, for a weapon record and the item records of its id.
pub open spec fn base_info_of(
    w: WeaponGrpDat,
    name: ItemNameDat,
    base: ItemBaseInfoDat,
    add: AdditionalItemGrpDat,
    names: Seq<Seq<char>>,
) -> ItemBaseInfoView {
    ItemBaseInfoView {
        id: ItemId(w.id),
        name: item_name(names, name.name_link),
        additional_name: name.additional_name@,
        popup: name.popup,
        default_action: name.default_action@,
        use_order: name.use_order,
        set_id: name.set_id,
        color: name.color,
        tooltip_texture: item_name(names, name.tooltip_texture_link),
        is_trade: name.is_trade == 1,
        is_drop: name.is_drop == 1,
        is_destruct: name.is_destruct == 1,
        is_private_store: name.is_private_store == 1,
        is_npc_trade: name.is_npc_trade == 1,
        is_commission_store: name.is_commission_store == 1,
        keep_type: name.keep_type,
        desc: name.description@,
        inventory_type: w.inventory_type,
        material: w.material_type,
        body_part: w.body_part,
        quality: w.color,
        crystallizable: w.crystallizable == 1,
        crystal_type: w.crystal_type,
        durability: w.durability as u16,
        weight: w.weight as u16,
        icons: ItemIconsView {
            icon_1: item_name(names, w.icon_1),
            icon_2: item_name(names, w.icon_2),
            icon_3: item_name(names, w.icon_3),
            icon_4: item_name(names, w.icon_4),
            icon_5: item_name(names, w.icon_5),
            icon_panel: item_name(names, w.icon_panel),
        },
        default_price: base.default_price,
        is_premium: base.is_premium == 1,
        is_blessed: w.is_blessed == 1,
        property_params: w.property_params,
        related_quests: w.related_quests_ids@.map_values(|q: u16| QuestId(q as u32)),
        equip_sound: item_name(names, w.equip_sound),
        additional_info: additional_info_of(add, names),
        drop_info: drop_info_of(w, names),
    }
}

/// The battle stats that a stat record gives.
pub open spec fn battle_stats_of(stats: ItemStatDataDat) -> ItemBattleStats {
    ItemBattleStats {
        p_defense: stats.p_defense,
        m_defense: stats.m_defense,
        p_attack: stats.p_attack,
        m_attack: stats.m_attack,
        p_attack_speed: stats.p_attack_speed,
        p_hit: stats.p_hit,
        m_hit: stats.m_hit,
        p_critical: stats.p_critical,
        m_critical: stats.m_critical,
        speed: stats.speed,
        shield_defense: stats.shield_defense,
        shield_defense_rate: stats.shield_defense_rate,
        p_avoid: stats.p_avoid,
        m_avoid: stats.m_avoid,
        property_params: stats.property_params,
    }
}

/// The weapon that a `weapongrp.dat` record describes, with the name, base-info,
/// additional-info and stat records of its id; every link is named through the
/// name table, as `item_name` does.
pub open spec fn weapon_from(
    w: WeaponGrpDat,
    name: ItemNameDat,
    base: ItemBaseInfoDat,
    add: AdditionalItemGrpDat,
    stats: ItemStatDataDat,
    names: Seq<Seq<char>>,
) -> WeaponView {
    WeaponView {
        base_info: base_info_of(w, name, base, add, names),
        weapon_type: w.weapon_type,
        character_animation_type: w.hand_stance_type,
        battle_stats: battle_stats_of(stats),
        random_damage: w.random_damage_type,
        ertheia_fists_scale: w.ertheia_fist_scale,
        mesh_info: mesh_infos(w, names),
        sound: names_of(names, w.item_sound@),
        effect: item_name(names, w.effect),
        mp_consume: w.mp_consume,
        soulshot_count: w.soulshot_count,
        spiritshot_count: w.spiritshot_count,
        curvature: w.curvature,
        unk: w.unk_1 == 1,
        can_equip_hero: w.can_equip_hero == 1,
        is_magic_weapon: w.is_magic_weapon == 1,
        enchant_junk: w.junk,
        enchant_info: w.enchant_info@.map_values(|e: EnchantInfo| enchant_info(e, names)),
        variation_info: WeaponVariationInfoView {
            icon: names_of(names, w.variation_icon@),
            effect_1: w.variation_effect_1,
            effect_2: w.variation_effect_2,
            effect_3: w.variation_effect_3,
            effect_4: w.variation_effect_4,
            effect_5: w.variation_effect_5,
            effect_6: w.variation_effect_6,
        },
        can_ensoul: w.is_ensoul == 1,
        ensoul_count: w.ensoul_count,
    }
}

fn mesh_infos_from(w: &WeaponGrpDat, gdn: &L2GeneralStringTable) -> (r: Vec<WeaponMeshInfo>)
    requires
        weapon_readable(*w),
    ensures
        r@.map_values(|m: WeaponMeshInfo| m@) == mesh_infos(*w, gdn@),
{
    let mut r: Vec<WeaponMeshInfo> = Vec::new();
    let n = w.mesh.len();
    let mut i: usize = 0;
    while i < n
        invariant
            i <= n,
            n == w.mesh@.len(),
            weapon_readable(*w),
            r@.len() == i,
            forall|j: int| 0 <= j < i ==> (#[trigger] r@[j])@ == mesh_infos(*w, gdn@)[j],
        decreases n - i,
    {
        let m = w.mesh[i];
        let t = w.texture[i];
        r.push(WeaponMeshInfo { mesh: name_text(gdn, m.mesh), unk: m.unk1, texture: name_text(gdn, t) });
        i += 1;
    }
    proof {
        assert(r@.map_values(|m: WeaponMeshInfo| m@) =~= mesh_infos(*w, gdn@));
    }
    r
}

fn drop_infos_from(w: &WeaponGrpDat, gdn: &L2GeneralStringTable) -> (r: Vec<ItemDropMeshInfo>)
    ensures
        r@.map_values(|m: ItemDropMeshInfo| m@) == w.drop_info@.map_values(
            |d: DropDatInfo| drop_mesh_info(d, gdn@),
        ),
{
    let mut r: Vec<ItemDropMeshInfo> = Vec::new();
    let n = w.drop_info.len();
    let mut i: usize = 0;
    while i < n
        invariant
            i <= n,
            n == w.drop_info@.len(),
            r@.len() == i,
            forall|j: int| 0 <= j < i ==> (#[trigger] r@[j])@ == drop_mesh_info(w.drop_info@[j], gdn@),
        decreases n - i,
    {
        let d = &w.drop_info[i];
        r.push(ItemDropMeshInfo { mesh: name_text(gdn, d.mesh), textures: name_texts(gdn, &d.texture) });
        i += 1;
    }
    proof {
        assert(r@.map_values(|m: ItemDropMeshInfo| m@) =~= w.drop_info@.map_values(
            |d: DropDatInfo| drop_mesh_info(d, gdn@),
        ));
    }
    r
}

fn enchant_infos_from(w: &WeaponGrpDat, gdn: &L2GeneralStringTable) -> (r: Vec<WeaponEnchantInfo>)
    ensures
        r@.map_values(|e: WeaponEnchantInfo| e@) == w.enchant_info@.map_values(
            |e: EnchantInfo| enchant_info(e, gdn@),
        ),
{
    let mut r: Vec<WeaponEnchantInfo> = Vec::new();
    let n = w.enchant_info.len();
    let mut i: usize = 0;
    while i < n
        invariant
            i <= n,
            n == w.enchant_info@.len(),
            r@.len() == i,
            forall|j: int| 0 <= j < i ==> (#[trigger] r@[j])@ == enchant_info(w.enchant_info@[j], gdn@),
        decreases n - i,
    {
        let e = w.enchant_info[i];
        r.push(
            WeaponEnchantInfo {
                effect: name_text(gdn, e.effect),
                effect_offset: e.effect_offset,
                effect_scale: e.effect_scale,
                effect_velocity: e.effect_velocity,
                mesh_offset: e.mesh_offset,
                mesh_scale: e.mesh_scale,
                particle_offset: e.particle_offset,
                particle_scale: e.particle_scale,
                ring_offset: e.ring_offset,
                ring_scale: e.ring_scale,
            },
        );
        i += 1;
    }
    proof {
        assert(r@.map_values(|e: WeaponEnchantInfo| e@) =~= w.enchant_info@.map_values(
            |e: EnchantInfo| enchant_info(e, gdn@),
        ));
    }
    r
}

fn quest_ids_from(v: &Vec<u16>) -> (r: Vec<QuestId>)
    ensures
        r@ == v@.map_values(|q: u16| QuestId(q as u32)),
{
    let mut r: Vec<QuestId> = Vec::new();
    let n = v.len();
    let mut i: usize = 0;
    while i < n
        invariant
            i <= n,
            n == v@.len(),
            r@.len() == i,
            forall|j: int| 0 <= j < i ==> #[trigger] r@[j] == QuestId(v@[j] as u32),
        decreases n - i,
    {
        r.push(QuestId(v[i] as u32));
        i += 1;
    }
    proof {
        assert(r@ =~= v@.map_values(|q: u16| QuestId(q as u32)));
    }
    r
}

fn item_ids_from(v: &Vec<u32>) -> (r: Vec<ItemId>)
    ensures
        r@ == v@.map_values(|x: u32| ItemId(x)),
{
    let mut r: Vec<ItemId> = Vec::new();
    let n = v.len();
    let mut i: usize = 0;
    while i < n
        invariant
            i <= n,
            n == v@.len(),
            r@.len() == i,
            forall|j: int| 0 <= j < i ==> #[trigger] r@[j] == ItemId(v@[j]),
        decreases n - i,
    {
        r.push(ItemId(v[i]));
        i += 1;
    }
    proof {
        assert(r@ =~= v@.map_values(|x: u32| ItemId(x)));
    }
    r
}

/// The drop look of a weapon record.
pub fn drop_info_from(w: &WeaponGrpDat, gdn: &L2GeneralStringTable) -> (r: ItemDropInfo)
    ensures
        r@ == drop_info_of(*w, gdn@),
{
    ItemDropInfo {
        drop_type: w.drop_type,
        drop_animation_type: w.drop_animation_type,
        drop_radius: w.drop_radius,
        drop_height: w.drop_height,
        drop_mesh_info: drop_infos_from(w, gdn),
        complete_item_drop_sound: name_text(gdn, w.complete_item_drop_sound),
        drop_sound: name_text(gdn, w.drop_sound),
    }
}

/// What `additionalitemgrp.dat` says of an item.
pub fn additional_info_from(add: &AdditionalItemGrpDat, gdn: &L2GeneralStringTable) -> (r: ItemAdditionalInfo)
    ensures
        r@ == additional_info_of(*add, gdn@),
{
    ItemAdditionalInfo {
        has_animation: add.has_ani == 1,
        include_items: item_ids_from(&add.included_items),
        max_energy: add.max_energy,
        look_change: name_text(gdn, add.look_change),
        hide_cloak: add.hide_cloak == 1,
        unk: add.unk1 == 1,
        hide_armor: add.hide_armor == 1,
    }
}

/// What every kind of item has, for a weapon record and the item records of its id.
pub fn base_info_from(
    w: &WeaponGrpDat,
    name: &ItemNameDat,
    base: &ItemBaseInfoDat,
    add: &AdditionalItemGrpDat,
    gdn: &L2GeneralStringTable,
) -> (r: ItemBaseInfo)
    ensures
        r@ == base_info_of(*w, *name, *base, *add, gdn@),
{
    let icons = ItemIcons {
        icon_1: name_text(gdn, w.icon_1),
        icon_2: name_text(gdn, w.icon_2),
        icon_3: name_text(gdn, w.icon_3),
        icon_4: name_text(gdn, w.icon_4),
        icon_5: name_text(gdn, w.icon_5),
        icon_panel: name_text(gdn, w.icon_panel),
    };
    ItemBaseInfo {
        id: ItemId(w.id),
        name: name_text(gdn, name.name_link),
        additional_name: name.additional_name.clone(),
        popup: name.popup,
        default_action: name.default_action.clone(),
        use_order: name.use_order,
        set_id: name.set_id,
        color: name.color,
        tooltip_texture: name_text(gdn, name.tooltip_texture_link),
        is_trade: name.is_trade == 1,
        is_drop: name.is_drop == 1,
        is_destruct: name.is_destruct == 1,
        is_private_store: name.is_private_store == 1,
        is_npc_trade: name.is_npc_trade == 1,
        is_commission_store: name.is_commission_store == 1,
        keep_type: name.keep_type,
        desc: name.description.clone(),
        inventory_type: w.inventory_type,
        material: w.material_type,
        body_part: w.body_part,
        quality: w.color,
        crystallizable: w.crystallizable == 1,
        crystal_type: w.crystal_type,
        durability: w.durability as u16,
        weight: w.weight as u16,
        icons,
        default_price: base.default_price,
        is_premium: base.is_premium == 1,
        is_blessed: w.is_blessed == 1,
        property_params: w.property_params,
        related_quests: quest_ids_from(&w.related_quests_ids),
        equip_sound: name_text(gdn, w.equip_sound),
        additional_info: additional_info_from(add, gdn),
        drop_info: drop_info_from(w, gdn),
    }
}

/// The weapon that a `weapongrp.dat` record describes, with the name, base-info,
/// additional-info and stat records of its id; every link is named through the
/// name table, or `NameNotFound[<link>]` where the table has no text under it.
pub fn weapon_from_records(
    w: &WeaponGrpDat,
    name: &ItemNameDat,
    base: &ItemBaseInfoDat,
    add: &AdditionalItemGrpDat,
    stats: &ItemStatDataDat,
    gdn: &L2GeneralStringTable,
) -> (r: Weapon)
    requires
        weapon_readable(*w),
    ensures
        r@ == weapon_from(*w, *name, *base, *add, *stats, gdn@),
{
    let battle_stats = ItemBattleStats {
        p_defense: stats.p_defense,
        m_defense: stats.m_defense,
        p_attack: stats.p_attack,
        m_attack: stats.m_attack,
        p_attack_speed: stats.p_attack_speed,
        p_hit: stats.p_hit,
        m_hit: stats.m_hit,
        p_critical: stats.p_critical,
        m_critical: stats.m_critical,
        speed: stats.speed,
        shield_defense: stats.shield_defense,
        shield_defense_rate: stats.shield_defense_rate,
        p_avoid: stats.p_avoid,
        m_avoid: stats.m_avoid,
        property_params: stats.property_params,
    };
    let variation_info = WeaponVariationInfo {
        icon: name_texts(gdn, &w.variation_icon),
        effect_1: w.variation_effect_1,
        effect_2: w.variation_effect_2,
        effect_3: w.variation_effect_3,
        effect_4: w.variation_effect_4,
        effect_5: w.variation_effect_5,
        effect_6: w.variation_effect_6,
    };
    Weapon {
        base_info: base_info_from(w, name, base, add, gdn),
        weapon_type: w.weapon_type,
        character_animation_type: w.hand_stance_type,
        battle_stats,
        random_damage: w.random_damage_type,
        ertheia_fists_scale: w.ertheia_fist_scale,
        mesh_info: mesh_infos_from(w, gdn),
        sound: name_texts(gdn, &w.item_sound),
        effect: name_text(gdn, w.effect),
        mp_consume: w.mp_consume,
        soulshot_count: w.soulshot_count,
        spiritshot_count: w.spiritshot_count,
        curvature: w.curvature,
        unk: w.unk_1 == 1,
        can_equip_hero: w.can_equip_hero == 1,
        is_magic_weapon: w.is_magic_weapon == 1,
        enchant_junk: w.junk,
        enchant_info: enchant_infos_from(w, gdn),
        variation_info,
        can_ensoul: w.is_ensoul == 1,
        ensoul_count: w.ensoul_count,
    }
}

/// The weapon built from its records takes each battle stat from the same-named
/// column of the stat record, its price and premium flag from the base-info record,
/// its id, codes, counts and scales from the same-named columns of the
/// `weapongrp.dat` record, and the texts of its name record; a flag is set where its
/// column holds 1.
pub proof fn law_weapon_columns(
    w: WeaponGrpDat,
    name: ItemNameDat,
    base: ItemBaseInfoDat,
    add: AdditionalItemGrpDat,
    stats: ItemStatDataDat,
    names: Seq<Seq<char>>,
    r: Weapon,
)
    requires
        r@ == weapon_from(w, name, base, add, stats, names),
    ensures
        r.battle_stats.p_defense == stats.p_defense,
        r.battle_stats.m_defense == stats.m_defense,
        r.battle_stats.p_attack == stats.p_attack,
        r.battle_stats.m_attack == stats.m_attack,
        r.battle_stats.p_attack_speed == stats.p_attack_speed,
        r.battle_stats.p_hit == stats.p_hit,
        r.battle_stats.m_hit == stats.m_hit,
        r.battle_stats.p_critical == stats.p_critical,
        r.battle_stats.m_critical == stats.m_critical,
        r.battle_stats.speed == stats.speed,
        r.battle_stats.shield_defense == stats.shield_defense,
        r.battle_stats.shield_defense_rate == stats.shield_defense_rate,
        r.battle_stats.p_avoid == stats.p_avoid,
        r.battle_stats.m_avoid == stats.m_avoid,
        r.battle_stats.property_params == stats.property_params,
        r.base_info.id.0 == w.id,
        r.base_info.default_price == base.default_price,
        r.base_info.is_premium == (base.is_premium == 1),
        r.base_info.additional_name@ == name.additional_name@,
        r.base_info.desc@ == name.description@,
        r.base_info.default_action@ == name.default_action@,
        r.base_info.popup == name.popup,
        r.base_info.use_order == name.use_order,
        r.base_info.set_id == name.set_id,
        r.base_info.color == name.color,
        r.base_info.keep_type == name.keep_type,
        r.base_info.is_trade == (name.is_trade == 1),
        r.base_info.is_drop == (name.is_drop == 1),
        r.base_info.is_destruct == (name.is_destruct == 1),
        r.base_info.is_private_store == (name.is_private_store == 1),
        r.base_info.is_npc_trade == (name.is_npc_trade == 1),
        r.base_info.is_commission_store == (name.is_commission_store == 1),
        r.base_info.inventory_type == w.inventory_type,
        r.base_info.material == w.material_type,
        r.base_info.body_part == w.body_part,
        r.base_info.quality == w.color,
        r.base_info.crystal_type == w.crystal_type,
        r.base_info.crystallizable == (w.crystallizable == 1),
        r.base_info.is_blessed == (w.is_blessed == 1),
        r.base_info.property_params == w.property_params,
        r.base_info.durability == w.durability as u16,
        r.base_info.weight == w.weight as u16,
        r.base_info.additional_info.max_energy == add.max_energy,
        r.base_info.additional_info.has_animation == (add.has_ani == 1),
        r.base_info.additional_info.hide_cloak == (add.hide_cloak == 1),
        r.base_info.additional_info.unk == (add.unk1 == 1),
        r.base_info.additional_info.hide_armor == (add.hide_armor == 1),
        r.base_info.drop_info.drop_type == w.drop_type,
        r.base_info.drop_info.drop_animation_type == w.drop_animation_type,
        r.base_info.drop_info.drop_radius == w.drop_radius,
        r.base_info.drop_info.drop_height == w.drop_height,
        r.weapon_type == w.weapon_type,
        r.character_animation_type == w.hand_stance_type,
        r.random_damage == w.random_damage_type,
        r.ertheia_fists_scale == w.ertheia_fist_scale,
        r.mp_consume == w.mp_consume,
        r.soulshot_count == w.soulshot_count,
        r.spiritshot_count == w.spiritshot_count,
        r.curvature == w.curvature,
        r.enchant_junk == w.junk,
        r.ensoul_count == w.ensoul_count,
        r.unk == (w.unk_1 == 1),
        r.can_equip_hero == (w.can_equip_hero == 1),
        r.is_magic_weapon == (w.is_magic_weapon == 1),
        r.can_ensoul == (w.is_ensoul == 1),
        r.variation_info.effect_1 == w.variation_effect_1,
        r.variation_info.effect_2 == w.variation_effect_2,
        r.variation_info.effect_3 == w.variation_effect_3,
        r.variation_info.effect_4 == w.variation_effect_4,
        r.variation_info.effect_5 == w.variation_effect_5,
        r.variation_info.effect_6 == w.variation_effect_6,
        (name.name_link as int) < names.len() ==> r.base_info.name@ == names[name.name_link as int],
        r.base_info.name@ == item_name(names, name.name_link),
        r.base_info.tooltip_texture@ == item_name(names, name.tooltip_texture_link),
        r.base_info.icons.icon_1@ == item_name(names, w.icon_1),
        r.base_info.icons.icon_2@ == item_name(names, w.icon_2),
        r.base_info.icons.icon_3@ == item_name(names, w.icon_3),
        r.base_info.icons.icon_4@ == item_name(names, w.icon_4),
        r.base_info.icons.icon_5@ == item_name(names, w.icon_5),
        r.base_info.icons.icon_panel@ == item_name(names, w.icon_panel),
        r.base_info.equip_sound@ == item_name(names, w.equip_sound),
        r.base_info.additional_info.look_change@ == item_name(names, add.look_change),
        r.base_info.drop_info.drop_sound@ == item_name(names, w.drop_sound),
        r.base_info.drop_info.complete_item_drop_sound@ == item_name(names, w.complete_item_drop_sound),
        r.effect@ == item_name(names, w.effect),
        r.mesh_info@.len() == w.mesh@.len(),
        forall|i: int|
            0 <= i < r.mesh_info@.len() ==> (#[trigger] r.mesh_info@[i]).unk == w.mesh@[i].unk1
                && r.mesh_info@[i].mesh@ == item_name(names, w.mesh@[i].mesh)
                && r.mesh_info@[i].texture@ == item_name(names, w.texture@[i]),
        r.enchant_info@.len() == w.enchant_info@.len(),
        forall|i: int|
            0 <= i < r.enchant_info@.len() ==> {
                &&& (#[trigger] r.enchant_info@[i]).effect_offset == w.enchant_info@[i].effect_offset
                &&& r.enchant_info@[i].effect_scale == w.enchant_info@[i].effect_scale
                &&& r.enchant_info@[i].effect_velocity == w.enchant_info@[i].effect_velocity
                &&& r.enchant_info@[i].mesh_offset == w.enchant_info@[i].mesh_offset
                &&& r.enchant_info@[i].mesh_scale == w.enchant_info@[i].mesh_scale
                &&& r.enchant_info@[i].particle_offset == w.enchant_info@[i].particle_offset
                &&& r.enchant_info@[i].particle_scale == w.enchant_info@[i].particle_scale
                &&& r.enchant_info@[i].ring_offset == w.enchant_info@[i].ring_offset
                &&& r.enchant_info@[i].ring_scale == w.enchant_info@[i].ring_scale
            },
        r.base_info.related_quests@.len() == w.related_quests_ids@.len(),
        forall|i: int|
            0 <= i < r.base_info.related_quests@.len() ==> (#[trigger] r.base_info.related_quests@[i]).0
                == w.related_quests_ids@[i] as u32,
        r.base_info.additional_info.include_items@.len() == add.included_items@.len(),
        forall|i: int|
            0 <= i < r.base_info.additional_info.include_items@.len()
                ==> (#[trigger] r.base_info.additional_info.include_items@[i]).0 == add.included_items@[i],
{
    let v = r@;
    assert(v.mesh_info.len() == r.mesh_info@.len());
    assert forall|i: int| 0 <= i < r.mesh_info@.len() implies (#[trigger] r.mesh_info@[i]).unk == w.mesh@[i].unk1
        && r.mesh_info@[i].mesh@ == item_name(names, w.mesh@[i].mesh)
        && r.mesh_info@[i].texture@ == item_name(names, w.texture@[i]) by {
        assert(v.mesh_info[i] == r.mesh_info@[i]@);
    }
    assert(v.enchant_info.len() == r.enchant_info@.len());
    assert forall|i: int| 0 <= i < r.enchant_info@.len() implies {
        &&& (#[trigger] r.enchant_info@[i]).effect_offset == w.enchant_info@[i].effect_offset
        &&& r.enchant_info@[i].effect_scale == w.enchant_info@[i].effect_scale
        &&& r.enchant_info@[i].effect_velocity == w.enchant_info@[i].effect_velocity
        &&& r.enchant_info@[i].mesh_offset == w.enchant_info@[i].mesh_offset
        &&& r.enchant_info@[i].mesh_scale == w.enchant_info@[i].mesh_scale
        &&& r.enchant_info@[i].particle_offset == w.enchant_info@[i].particle_offset
        &&& r.enchant_info@[i].particle_scale == w.enchant_info@[i].particle_scale
        &&& r.enchant_info@[i].ring_offset == w.enchant_info@[i].ring_offset
        &&& r.enchant_info@[i].ring_scale == w.enchant_info@[i].ring_scale
    } by {
        assert(v.enchant_info[i] == r.enchant_info@[i]@);
        assert(v.enchant_info[i] == enchant_info(w.enchant_info@[i], names));
    }
}

} // verus!
