//! Recipes, and their records in `recipe.dat`.
use vstd::prelude::*;
use crate::ids::{ItemId, RecipeId};
use crate::string_table::L2GeneralStringTable;
use crate::vec_util::{bool_code, to_u32_bool};

verus! {

/// An ingredient of a recipe.
#[derive(Clone, Copy, Debug, PartialEq, Eq, Structural)]
pub struct RecipeMaterial {
    pub id: ItemId,
    pub count: u32,
    pub recipe_id: RecipeId,
}

/// A recipe: what it takes and what it makes.
#[derive(Clone, Debug, PartialEq)]
pub struct Recipe {
    pub id: RecipeId,
    pub name: String,
    pub recipe_item: ItemId,
    pub level: u32,
    pub product: ItemId,
    pub product_count: u32,
    pub show_tree: bool,
    pub is_multiple_product: bool,
    pub mp_consume: u32,
    pub success_rate: u32,
    pub materials: Vec<RecipeMaterial>,
}

/// The value of a recipe.
pub struct RecipeView {
    pub id: RecipeId,
    pub name: Seq<char>,
    pub recipe_item: ItemId,
    pub level: u32,
    pub product: ItemId,
    pub product_count: u32,
    pub show_tree: bool,
    pub is_multiple_product: bool,
    pub mp_consume: u32,
    pub success_rate: u32,
    pub materials: Seq<RecipeMaterial>,
}

impl View for Recipe {
    type V = RecipeView;

    open spec fn view(&self) -> RecipeView {
        RecipeView {
            id: self.id,
            name: self.name@,
            recipe_item: self.recipe_item,
            level: self.level,
            product: self.product,
            product_count: self.product_count,
            show_tree: self.show_tree,
            is_multiple_product: self.is_multiple_product,
            mp_consume: self.mp_consume,
            success_rate: self.success_rate,
            materials: self.materials@,
        }
    }
}

/// An ingredient as `recipe.dat` stores it.
#[derive(Clone, Copy, Debug, PartialEq, Eq, Structural)]
pub struct DatMaterial {
    pub id: u32,
    pub count: u32,
    pub recipe_id: u32,
}

/// A record of `recipe.dat`.
#[derive(Clone, Debug, PartialEq)]
pub struct RecipeDat {
    pub name: String,
    pub id: u32,
    pub recipe_item_id: u32,
    pub level: u32,
    pub product_id: u32,
    pub product_count: u32,
    pub show_tree: u32,
    pub is_multiple_product: u32,
    pub mp_consume: u32,
    pub success_rate: u32,
    pub materials: Vec<DatMaterial>,
}

/// The value of a `recipe.dat` record.
pub struct RecipeDatView {
    pub name: Seq<char>,
    pub id: u32,
    pub recipe_item_id: u32,
    pub level: u32,
    pub product_id: u32,
    pub product_count: u32,
    pub show_tree: u32,
    pub is_multiple_product: u32,
    pub mp_consume: u32,
    pub success_rate: u32,
    pub materials: Seq<DatMaterial>,
}

impl View for RecipeDat {
    type V = RecipeDatView;

    open spec fn view(&self) -> RecipeDatView {
        RecipeDatView {
            name: self.name@,
            id: self.id,
            recipe_item_id: self.recipe_item_id,
            level: self.level,
            product_id: self.product_id,
            product_count: self.product_count,
            show_tree: self.show_tree,
            is_multiple_product: self.is_multiple_product,
            mp_consume: self.mp_consume,
            success_rate: self.success_rate,
            materials: self.materials@,
        }
    }
}

/// The record of an ingredient.
pub open spec fn material_record(m: RecipeMaterial) -> DatMaterial {
    DatMaterial { id: m.id.0, count: m.count, recipe_id: m.recipe_id.0 }
}

/// The ingredient of a record.
pub open spec fn material_from_record(d: DatMaterial) -> RecipeMaterial {
    RecipeMaterial { id: ItemId(d.id), count: d.count, recipe_id: RecipeId(d.recipe_id) }
}

/// The record that a recipe is written as; flags are 1 for set and 0 for clear.
pub open spec fn recipe_record(r: RecipeView) -> RecipeDatView {
    RecipeDatView {
        name: r.name,
        id: r.id.0,
        recipe_item_id: r.recipe_item.0,
        level: r.level,
        product_id: r.product.0,
        product_count: r.product_count,
        show_tree: bool_code(r.show_tree),
        is_multiple_product: bool_code(r.is_multiple_product),
        mp_consume: r.mp_consume,
        success_rate: r.success_rate,
        materials: r.materials.map_values(|m: RecipeMaterial| material_record(m)),
    }
}

/// The recipe that a record is read as; a flag is set where the record holds 1.
pub open spec fn recipe_from_record(d: RecipeDatView) -> RecipeView {
    RecipeView {
        id: RecipeId(d.id),
        name: d.name,
        recipe_item: ItemId(d.recipe_item_id),
        level: d.level,
        product: ItemId(d.product_id),
        product_count: d.product_count,
        show_tree: d.show_tree == 1,
        is_multiple_product: d.is_multiple_product == 1,
        mp_consume: d.mp_consume,
        success_rate: d.success_rate,
        materials: d.materials.map_values(|m: DatMaterial| material_from_record(m)),
    }
}

impl RecipeDat {
    /// The record that `recipe` is written as. The name table is not consulted: the
    /// record holds the recipe's name itself.
    pub fn from(recipe: &Recipe, table: &mut L2GeneralStringTable) -> (r: RecipeDat)
        ensures
            r@ == recipe_record(recipe@),
            final(table)@ == old(table)@,
            final(table).changed() == old(table).changed(),
    {
        let mut materials: Vec<DatMaterial> = Vec::new();
        let mut i: usize = 0;
        while i < recipe.materials.len()
            invariant
                i <= recipe.materials@.len(),
                materials@ =~= recipe.materials@.take(i as int).map_values(|m: RecipeMaterial| material_record(m)),
            decreases recipe.materials@.len() - i,
        {
            let m = recipe.materials[i];
            materials.push(DatMaterial { id: m.id.0, count: m.count, recipe_id: m.recipe_id.0 });
            proof {
                assert(recipe.materials@.take(i + 1).drop_last() =~= recipe.materials@.take(i as int));
            }
            i += 1;
        }
        proof {
            assert(recipe.materials@.take(recipe.materials@.len() as int) =~= recipe.materials@);
        }
        RecipeDat {
            name: recipe.name.clone(),
            id: recipe.id.0,
            recipe_item_id: recipe.recipe_item.0,
            level: recipe.level,
            product_id: recipe.product.0,
            product_count: recipe.product_count,
            show_tree: to_u32_bool(recipe.show_tree),
            is_multiple_product: to_u32_bool(recipe.is_multiple_product),
            mp_consume: recipe.mp_consume,
            success_rate: recipe.success_rate,
            materials,
        }
    }
}

impl Recipe {
    /// The recipe that a record of `recipe.dat` is read as.
    pub fn from_record(v: &RecipeDat) -> (r: Recipe)
        ensures
            r@ == recipe_from_record(v@),
    {
        let mut materials: Vec<RecipeMaterial> = Vec::new();
        let mut i: usize = 0;
        while i < v.materials.len()
            invariant
                i <= v.materials@.len(),
                materials@ =~= v.materials@.take(i as int).map_values(|m: DatMaterial| material_from_record(m)),
            decreases v.materials@.len() - i,
        {
            let m = v.materials[i];
            materials.push(RecipeMaterial { id: ItemId(m.id), count: m.count, recipe_id: RecipeId(m.recipe_id) });
            proof {
                assert(v.materials@.take(i + 1).drop_last() =~= v.materials@.take(i as int));
            }
            i += 1;
        }
        proof {
            assert(v.materials@.take(v.materials@.len() as int) =~= v.materials@);
        }
        Recipe {
            id: RecipeId(v.id),
            name: v.name.clone(),
            recipe_item: ItemId(v.recipe_item_id),
            level: v.level,
            product: ItemId(v.product_id),
            product_count: v.product_count,
            show_tree: v.show_tree == 1,
            is_multiple_product: v.is_multiple_product == 1,
            mp_consume: v.mp_consume,
            success_rate: v.success_rate,
            materials,
        }
    }
}

/// Reading back the record that a recipe was written as gives the recipe again.
pub proof fn law_recipe_round_trip(r: RecipeView)
    ensures
        recipe_from_record(recipe_record(r)) == r,
{
    let back = recipe_from_record(recipe_record(r));
    assert(back.materials =~= r.materials);
}

/// Writing the recipe that a record was read as gives the record again, where its
/// flags are 0 or 1.
pub proof fn law_recipe_record_round_trip(d: RecipeDatView)
    requires
        d.show_tree <= 1,
        d.is_multiple_product <= 1,
    ensures
        recipe_record(recipe_from_record(d)) == d,
{
    let back = recipe_record(recipe_from_record(d));
    assert(back.materials =~= d.materials);
}

/// The record written for a recipe carries each field of the recipe in the
/// same-named column: id, name, recipe item, level, product and its count, mp
/// consumption, success rate, and a flag as 1 where set and 0 where clear; an
/// ingredient at each position.
pub proof fn law_recipe_record_columns(r: Recipe, d: RecipeDat)
    requires
        d@ == recipe_record(r@),
    ensures
        d.id == r.id.0,
        d.name@ == r.name@,
        d.recipe_item_id == r.recipe_item.0,
        d.level == r.level,
        d.product_id == r.product.0,
        d.product_count == r.product_count,
        d.mp_consume == r.mp_consume,
        d.success_rate == r.success_rate,
        d.show_tree == (if r.show_tree { 1u32 } else { 0u32 }),
        d.is_multiple_product == (if r.is_multiple_product { 1u32 } else { 0u32 }),
        d.materials@.len() == r.materials@.len(),
        forall|i: int|
            0 <= i < d.materials@.len() ==> (#[trigger] d.materials@[i]).id == r.materials@[i].id.0
                && d.materials@[i].count == r.materials@[i].count
                && d.materials@[i].recipe_id == r.materials@[i].recipe_id.0,
{
}

/// The recipe read from a record takes each field from the same-named column: id,
/// name, recipe item, level, product and its count, mp consumption, success rate;
/// a flag is set where its column holds 1; an ingredient at each position.
pub proof fn law_recipe_from_record_columns(d: RecipeDat, r: Recipe)
    requires
        r@ == recipe_from_record(d@),
    ensures
        r.id.0 == d.id,
        r.name@ == d.name@,
        r.recipe_item.0 == d.recipe_item_id,
        r.level == d.level,
        r.product.0 == d.product_id,
        r.product_count == d.product_count,
        r.mp_consume == d.mp_consume,
        r.success_rate == d.success_rate,
        r.show_tree == (d.show_tree == 1),
        r.is_multiple_product == (d.is_multiple_product == 1),
        r.materials@.len() == d.materials@.len(),
        forall|i: int|
            0 <= i < r.materials@.len() ==> (#[trigger] r.materials@[i]).id.0 == d.materials@[i].id
                && r.materials@[i].count == d.materials@[i].count
                && r.materials@[i].recipe_id.0 == d.materials@[i].recipe_id,
{
}

} // verus!
