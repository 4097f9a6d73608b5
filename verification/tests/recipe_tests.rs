use la2world_editor::ids::{ItemId, RecipeId};
use la2world_editor::recipe::{Recipe, RecipeDat, RecipeMaterial};
use la2world_editor::string_table::L2GeneralStringTable;

fn sample_recipe() -> Recipe {
    Recipe {
        id: RecipeId(7),
        name: "mk_wooden_arrow".to_string(),
        recipe_item: ItemId(1666),
        level: 1,
        product: ItemId(17),
        product_count: 500,
        show_tree: true,
        is_multiple_product: false,
        mp_consume: 30,
        success_rate: 100,
        materials: vec![
            RecipeMaterial { id: ItemId(1864), count: 4, recipe_id: RecipeId(0) },
            RecipeMaterial { id: ItemId(1869), count: 2, recipe_id: RecipeId(3) },
        ],
    }
}

#[test]
fn recipe_record_holds_flags_as_numbers() {
    let r = sample_recipe();
    let mut table = L2GeneralStringTable::default();
    let d = RecipeDat::from(&r, &mut table);
    assert_eq!(d.show_tree, 1);
    assert_eq!(d.is_multiple_product, 0);
    assert_eq!(d.id, 7);
    assert_eq!(d.product_id, 17);
    assert_eq!(d.materials.len(), 2);
    assert_eq!(d.materials[1].recipe_id, 3);
    assert_eq!(table.len(), 0);
}

#[test]
fn recipe_survives_write_and_read() {
    let r = sample_recipe();
    let mut table = L2GeneralStringTable::default();
    let d = RecipeDat::from(&r, &mut table);
    let back = Recipe::from_record(&d);
    assert_eq!(back.id, r.id);
    assert_eq!(back.name, r.name);
    assert_eq!(back.recipe_item, r.recipe_item);
    assert_eq!(back.level, r.level);
    assert_eq!(back.product, r.product);
    assert_eq!(back.product_count, r.product_count);
    assert_eq!(back.show_tree, r.show_tree);
    assert_eq!(back.is_multiple_product, r.is_multiple_product);
    assert_eq!(back.mp_consume, r.mp_consume);
    assert_eq!(back.success_rate, r.success_rate);
    assert_eq!(back.materials, r.materials);
}
