use modpack_recipes::recipe::{
    input_slot_id, parse_shaped, parse_shapeless, recipe_kind, sort_recipe_entries, ExportRecipeRequest,
    ParsedRecipe, RawIngredient, RawResult, RawShapedRecipe, RawShapelessRecipe, RecipeFileEntry,
    RecipeKind, RecipeSlot,
};
use modpack_recipes::vanilla_json::{export_recipe, RecipeJson};

fn slot(row: usize, col: usize, item: &str) -> RecipeSlot {
    RecipeSlot { slot_id: format!("input_{}_{}", row, col), item_id: item.to_string(), row, col }
}

fn request(shapeless: bool, inputs: Vec<RecipeSlot>, count: u32) -> ExportRecipeRequest {
    ExportRecipeRequest {
        grid_type: "crafting_table".into(),
        shapeless,
        inputs,
        outputs: vec![RecipeSlot { slot_id: "output_0".into(), item_id: "minecraft:stick".into(), row: 0, col: 0 }],
        count,
    }
}

#[test]
fn slot_ids() {
    assert_eq!(input_slot_id(0, 2), "input_0_2");
    assert_eq!(input_slot_id(12, 305), "input_12_305");
}

#[test]
fn recipe_kinds() {
    assert!(recipe_kind("minecraft:crafting_shaped") == Some(RecipeKind::Shaped));
    assert!(recipe_kind("minecraft:crafting_shapeless") == Some(RecipeKind::Shapeless));
    assert!(recipe_kind("minecraft:smelting").is_none());
}

fn shaped(pattern: &[&str], key: &[(&str, &str)], item: Option<&str>, count: Option<u32>) -> RawShapedRecipe {
    RawShapedRecipe {
        pattern: pattern.iter().map(|s| s.to_string()).collect(),
        key: key.iter().map(|(k, v)| (k.to_string(), RawIngredient::Object { item: v.to_string() })).collect(),
        result: RawResult { item: item.map(|s| s.to_string()), count },
    }
}

#[test]
fn shaped_recipe_slots() {
    let r = parse_shaped(&shaped(&["# ", " #"], &[("#", "minecraft:stick")], Some("minecraft:ladder"), Some(3))).unwrap();
    assert_eq!(r.recipe_type, "shaped");
    assert_eq!(r.count, 3);
    assert_eq!(r.output_item_id, "minecraft:ladder");
    let got: Vec<(String, usize, usize, String)> = r.inputs.iter().map(|s| (s.slot_id.clone(), s.row, s.col, s.item_id.clone())).collect();
    assert_eq!(got, vec![
        ("input_0_0".to_string(), 0, 0, "minecraft:stick".to_string()),
        ("input_1_1".to_string(), 1, 1, "minecraft:stick".to_string()),
    ]);
}

#[test]
fn shaped_recipe_rejections() {
    assert!(parse_shaped(&shaped(&["#"], &[("#", "a")], None, None)).is_none());
    assert!(parse_shaped(&shaped(&["#X"], &[("#", "a")], Some("b"), None)).is_none());
    assert!(parse_shaped(&shaped(&["  "], &[], Some("b"), None)).is_none());
    let r = parse_shaped(&shaped(&["#"], &[("#", "a")], Some("b"), Some(0))).unwrap();
    assert_eq!(r.count, 1);
    let r = parse_shaped(&RawShapedRecipe {
        pattern: vec!["x".into()],
        key: vec![("x".into(), RawIngredient::StringId("minecraft:dirt".into()))],
        result: RawResult { item: Some("b".into()), count: None },
    }).unwrap();
    assert_eq!(r.inputs[0].item_id, "minecraft:dirt");
    assert_eq!(r.count, 1);
}

#[test]
fn shapeless_recipe_grid_layout() {
    let raw = RawShapelessRecipe {
        ingredients: (0..5).map(|i| RawIngredient::Object { item: format!("m:i{}", i) }).collect(),
        result: RawResult { item: Some("m:out".into()), count: Some(2) },
    };
    let r = parse_shapeless(&raw).unwrap();
    assert_eq!(r.recipe_type, "shapeless");
    assert_eq!(r.count, 2);
    let pos: Vec<(usize, usize)> = r.inputs.iter().map(|s| (s.row, s.col)).collect();
    assert_eq!(pos, vec![(0, 0), (0, 1), (0, 2), (1, 0), (1, 1)]);
    assert_eq!(r.inputs[4].slot_id, "input_1_1");
    assert!(parse_shapeless(&RawShapelessRecipe { ingredients: vec![], result: RawResult { item: Some("x".into()), count: None } }).is_none());
    assert!(parse_shapeless(&RawShapelessRecipe { ingredients: vec![RawIngredient::StringId("a".into())], result: RawResult { item: None, count: None } }).is_none());
}

#[test]
fn ingredient_item_id() {
    assert_eq!(RawIngredient::Object { item: "a".into() }.item_id(), "a");
    assert_eq!(RawIngredient::StringId("b".into()).item_id(), "b");
}

#[test]
fn recipe_entries_sorted_by_file_name() {
    let e = |n: &str| RecipeFileEntry {
        file_name: n.to_string(),
        file_path: format!("/r/{}", n),
        recipe: ParsedRecipe { recipe_type: "shapeless".into(), inputs: vec![], output_item_id: "x".into(), count: 1 },
    };
    let sorted = sort_recipe_entries(vec![e("b.json"), e("a.json"), e("C.json")]);
    let names: Vec<&str> = sorted.iter().map(|x| x.file_name.as_str()).collect();
    assert_eq!(names, vec!["C.json", "a.json", "b.json"]);
}

#[test]
fn export_errors() {
    let mut r = request(false, vec![slot(0, 0, "a")], 1);
    r.outputs.clear();
    assert_eq!(export_recipe(&r).err(), Some("No output item specified".to_string()));
    let r = request(false, vec![], 1);
    assert_eq!(export_recipe(&r).err(), Some("No input items specified".to_string()));
    let many: Vec<RecipeSlot> = (0..10).map(|i| slot(i / 3, i % 3, &format!("m:i{}", i))).collect();
    assert_eq!(export_recipe(&request(false, many, 1)).err(), Some("Too many unique items for shaped recipe (max 9)".to_string()));
}

#[test]
fn export_shaped_pattern() {
    let inputs = vec![slot(1, 1, "minecraft:stick"), slot(2, 1, "minecraft:stick"), slot(0, 0, "minecraft:diamond"), slot(0, 2, "minecraft:diamond"), slot(0, 1, "minecraft:diamond")];
    match export_recipe(&request(false, inputs, 1)).unwrap() {
        RecipeJson::Shaped { pattern, key, result } => {
            assert_eq!(pattern, vec!["BBB", " A ", " A "]);
            assert_eq!(key, vec![('A', "minecraft:stick".to_string()), ('B', "minecraft:diamond".to_string())]);
            assert_eq!(result.item, "minecraft:stick");
            assert_eq!(result.count, None);
        },
        _ => panic!("expected shaped"),
    }
    match export_recipe(&request(false, vec![slot(2, 2, "x"), slot(1, 2, "y")], 4)).unwrap() {
        RecipeJson::Shaped { pattern, result, .. } => {
            assert_eq!(pattern, vec!["B", "A"]);
            assert_eq!(result.count, Some(4));
        },
        _ => panic!("expected shaped"),
    }
}

#[test]
fn export_shapeless_list() {
    match export_recipe(&request(true, vec![slot(2, 2, "x"), slot(0, 0, "y"), slot(0, 1, "x")], 0)).unwrap() {
        RecipeJson::Shapeless { ingredients, result } => {
            assert_eq!(ingredients, vec!["x", "y", "x"]);
            assert_eq!(result.count, None);
        },
        _ => panic!("expected shapeless"),
    }
}

#[test]
fn shapeless_round_trip() {
    let inputs = vec![slot(2, 2, "x"), slot(0, 0, "y"), slot(0, 1, "z"), slot(1, 0, "w")];
    let json = export_recipe(&request(true, inputs, 2)).unwrap();
    let (ingredients, result) = match json {
        RecipeJson::Shapeless { ingredients, result } => (ingredients, result),
        _ => panic!("expected shapeless"),
    };
    let raw = RawShapelessRecipe {
        ingredients: ingredients.into_iter().map(|item| RawIngredient::Object { item }).collect(),
        result: RawResult { item: Some(result.item), count: result.count },
    };
    let back = parse_shapeless(&raw).unwrap();
    let items: Vec<&str> = back.inputs.iter().map(|s| s.item_id.as_str()).collect();
    assert_eq!(items, vec!["x", "y", "z", "w"]);
    assert_eq!(back.count, 2);
}

#[test]
fn shaped_round_trip() {
    let inputs = vec![slot(1, 1, "minecraft:stick"), slot(2, 1, "minecraft:stick"), slot(1, 2, "minecraft:diamond")];
    let (pattern, key, result) = match export_recipe(&request(false, inputs, 1)).unwrap() {
        RecipeJson::Shaped { pattern, key, result } => (pattern, key, result),
        _ => panic!("expected shaped"),
    };
    let raw = RawShapedRecipe {
        pattern,
        key: key.into_iter().map(|(c, item)| (c.to_string(), RawIngredient::Object { item })).collect(),
        result: RawResult { item: Some(result.item), count: result.count },
    };
    let back = parse_shaped(&raw).unwrap();
    let got: Vec<(usize, usize, &str)> = back.inputs.iter().map(|s| (s.row, s.col, s.item_id.as_str())).collect();
    assert_eq!(got, vec![(0, 0, "minecraft:stick"), (0, 1, "minecraft:diamond"), (1, 0, "minecraft:stick")]);
    assert_eq!(back.count, 1);
}

#[test]
fn export_shaped_without_slots() {
    match modpack_recipes::vanilla_json::export_shaped("minecraft:stick", 1, &vec![]).unwrap() {
        RecipeJson::Shaped { pattern, key, result } => {
            assert_eq!(pattern, vec![" ".to_string()]);
            assert!(key.is_empty());
            assert_eq!(result.item, "minecraft:stick");
            assert_eq!(result.count, None);
        },
        _ => panic!("expected shaped"),
    }
}

#[test]
fn export_shapeless_at_grid_limit() {
    let inputs = vec![slot(usize::MAX, 0, "x"), slot(0, usize::MAX, "y")];
    match export_recipe(&request(true, inputs, 3)).unwrap() {
        RecipeJson::Shapeless { ingredients, result } => {
            assert_eq!(ingredients, vec!["x".to_string(), "y".to_string()]);
            assert_eq!(result.count, Some(3));
        },
        _ => panic!("expected shapeless"),
    }
}
