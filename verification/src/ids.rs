//! Identifiers of the game entities and plain coordinates.
use vstd::prelude::*;

verus! {

/// Identifier of an npc.
#[derive(Clone, Copy, Debug, PartialEq, Eq, Structural, Hash, Default)]
pub struct NpcId(pub u32);

/// Identifier of an item.
#[derive(Clone, Copy, Debug, PartialEq, Eq, Structural, Hash, Default)]
pub struct ItemId(pub u32);

/// Identifier of a quest.
#[derive(Clone, Copy, Debug, PartialEq, Eq, Structural, Hash, Default)]
pub struct QuestId(pub u32);

/// Identifier of a skill.
#[derive(Clone, Copy, Debug, PartialEq, Eq, Structural, Hash, Default)]
pub struct SkillId(pub u32);

/// Identifier of a hunting zone.
#[derive(Clone, Copy, Debug, PartialEq, Eq, Structural, Hash, Default)]
pub struct HuntingZoneId(pub u32);

/// Identifier of a recipe.
#[derive(Clone, Copy, Debug, PartialEq, Eq, Structural, Hash, Default)]
pub struct RecipeId(pub u32);

/// Identifier of a search zone.
#[derive(Clone, Copy, Debug, PartialEq, Eq, Structural, Hash, Default)]
pub struct SearchZoneId(pub u32);

/// Identifier of an instant zone.
#[derive(Clone, Copy, Debug, PartialEq, Eq, Structural, Hash, Default)]
pub struct InstantZoneId(pub u32);

/// Identifier of a visual effect.
#[derive(Clone, Copy, Debug, PartialEq, Eq, Structural, Hash, Default)]
pub struct VisualEffectId(pub u32);

/// A point of the game world, in whole units.
#[derive(Clone, Copy, Debug, PartialEq, Eq, Structural, Default)]
pub struct Location {
    pub x: i32,
    pub y: i32,
    pub z: i32,
}

} // verus!
