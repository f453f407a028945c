use modpack_recipes::model_resolver::{
    is_sprite_model, normalize_model_path, normalize_texture_ref, resolve_block_textures,
    resolve_item_texture, resolve_texture_vars, try_extract_any_block_texture, ModelJson,
    ModelRegistry, MultiNamespaceModels, ResolvedTexture, TextureVars,
};

fn vars(pairs: &[(&str, &str)]) -> TextureVars {
    TextureVars { entries: pairs.iter().map(|(k, v)| (k.to_string(), v.to_string())).collect() }
}

fn model(parent: Option<&str>, textures: &[(&str, &str)]) -> ModelJson {
    ModelJson {
        parent: parent.map(|p| p.to_string()),
        textures: if textures.is_empty() { None } else { Some(vars(textures)) },
    }
}

fn models(ns: &str, entries: Vec<(&str, ModelJson)>) -> MultiNamespaceModels {
    MultiNamespaceModels {
        entries: vec![(
            ns.to_string(),
            ModelRegistry { entries: entries.into_iter().map(|(k, m)| (k.to_string(), m)).collect() },
        )],
    }
}

fn get<'a>(v: &'a TextureVars, k: &str) -> Option<&'a str> {
    v.entries.iter().find(|(key, _)| key == k).map(|(_, val)| val.as_str())
}

fn block(r: Option<ResolvedTexture>) -> (String, String, String) {
    match r {
        Some(ResolvedTexture::BlockIsometric { top, front, right }) => (top, front, right),
        _ => panic!("expected a block"),
    }
}

fn sprite(r: Option<ResolvedTexture>) -> String {
    match r {
        Some(ResolvedTexture::Sprite(t)) => t,
        _ => panic!("expected a sprite"),
    }
}

#[test]
fn normalize_model_path_strips_minecraft_prefix() {
    assert_eq!(normalize_model_path("minecraft:block/stone"), "block/stone");
    assert_eq!(normalize_model_path("block/stone"), "block/stone");
    assert_eq!(normalize_model_path("create:block/gear"), "create:block/gear");
}

#[test]
fn normalize_texture_ref_splits_at_first_colon() {
    assert_eq!(normalize_texture_ref("minecraft:block/stone"), ("minecraft".to_string(), "block/stone".to_string()));
    assert_eq!(normalize_texture_ref("block/stone"), ("minecraft".to_string(), "block/stone".to_string()));
    assert_eq!(normalize_texture_ref("a:b:c"), ("a".to_string(), "b:c".to_string()));
}

#[test]
fn texture_vars_overlay_parent_and_resolve_references() {
    let m = models(
        "minecraft",
        vec![
            ("block/cube_all", model(Some("block/cube"), &[("particle", "#all"), ("down", "#all")])),
            ("block/stone", model(Some("minecraft:block/cube_all"), &[("all", "minecraft:block/stone")])),
        ],
    );
    let v = resolve_texture_vars("block/stone", &m, "minecraft", 0);
    assert_eq!(get(&v, "all"), Some("minecraft:block/stone"));
    assert_eq!(get(&v, "particle"), Some("minecraft:block/stone"));
    assert_eq!(get(&v, "down"), Some("minecraft:block/stone"));
    assert_eq!(v.entries.len(), 3);
}

#[test]
fn texture_vars_of_unknown_model_are_empty() {
    let m = models("minecraft", vec![]);
    assert!(resolve_texture_vars("item/nothing", &m, "minecraft", 0).entries.is_empty());
    assert!(resolve_texture_vars("item/nothing", &m, "other", 0).entries.is_empty());
}

#[test]
fn texture_vars_stop_past_depth_bound() {
    let m = models("minecraft", vec![("item/loop", model(Some("item/loop"), &[("layer0", "x")]))]);
    let v = resolve_texture_vars("item/loop", &m, "minecraft", 0);
    assert_eq!(get(&v, "layer0"), Some("x"));
    assert!(resolve_texture_vars("item/loop", &m, "minecraft", 21).entries.is_empty());
}

#[test]
fn unresolvable_reference_is_kept() {
    let m = models("minecraft", vec![("item/a", model(None, &[("layer0", "#missing")]))]);
    let v = resolve_texture_vars("item/a", &m, "minecraft", 0);
    assert_eq!(get(&v, "layer0"), Some("#missing"));
}

#[test]
fn sprite_item_uses_layer0() {
    let m = models(
        "minecraft",
        vec![("item/diamond", model(Some("minecraft:item/generated"), &[("layer0", "minecraft:item/diamond")]))],
    );
    assert!(is_sprite_model("item/diamond", &m, "minecraft", 0));
    let r = resolve_item_texture("diamond", "item", &m, "minecraft");
    assert_eq!(sprite(r), "minecraft:item/diamond");
}

#[test]
fn handheld_parent_is_a_sprite() {
    let m = models(
        "tools",
        vec![
            ("item/base_tool", model(Some("item/handheld"), &[])),
            ("item/saw", model(Some("tools:item/base_tool"), &[("layer0", "tools:item/saw")])),
        ],
    );
    assert!(is_sprite_model("item/saw", &m, "tools", 0));
    assert_eq!(sprite(resolve_item_texture("saw", "item", &m, "tools")), "tools:item/saw");
}

#[test]
fn cube_all_block_uses_all_on_every_face() {
    let m = models(
        "minecraft",
        vec![
            ("block/stone", model(Some("minecraft:block/cube_all"), &[("all", "minecraft:block/stone")])),
            ("item/stone", model(Some("minecraft:block/stone"), &[])),
        ],
    );
    let (t, f, r) = block(resolve_item_texture("stone", "block", &m, "minecraft"));
    assert_eq!(t, "minecraft:block/stone");
    assert_eq!(f, "minecraft:block/stone");
    assert_eq!(r, "minecraft:block/stone");
}

#[test]
fn block_kind_falls_back_to_block_model() {
    let m = models(
        "minecraft",
        vec![("block/log", model(Some("block/cube_column"), &[("end", "block/log_top"), ("side", "block/log")]))],
    );
    assert!(resolve_item_texture("log", "item", &m, "minecraft").is_none());
    let (t, f, r) = block(resolve_item_texture("log", "block", &m, "minecraft"));
    assert_eq!((t.as_str(), f.as_str(), r.as_str()), ("block/log_top", "block/log", "block/log"));
}

#[test]
fn block_faces_per_parent_kind() {
    let v = vars(&[("top", "t"), ("side", "s")]);
    assert_eq!(block(resolve_block_textures("block/cube_bottom_top", &v)), ("t".into(), "s".into(), "s".into()));
    let v = vars(&[("side", "s")]);
    assert_eq!(block(resolve_block_textures("block/cube_column", &v)), ("s".into(), "s".into(), "s".into()));
    let v = vars(&[("top", "t"), ("front", "f"), ("side", "s")]);
    assert_eq!(block(resolve_block_textures("block/orientable", &v)), ("t".into(), "f".into(), "s".into()));
    let v = vars(&[("up", "u"), ("north", "n"), ("west", "w")]);
    assert_eq!(block(resolve_block_textures("block/cube", &v)), ("u".into(), "n".into(), "w".into()));
    let v = vars(&[("particle", "p")]);
    assert_eq!(block(resolve_block_textures("block/cube", &v)), ("p".into(), "p".into(), "p".into()));
    let v = vars(&[("north", "n")]);
    assert!(resolve_block_textures("block/cube", &v).is_none());
    let v = vars(&[("side", "s")]);
    assert!(resolve_block_textures("block/cube_all", &v).is_none());
}

#[test]
fn any_block_texture_skips_references() {
    let v = vars(&[("top", "#side"), ("end", "e"), ("front", "f")]);
    assert_eq!(block(try_extract_any_block_texture(&v)), ("e".into(), "f".into(), "f".into()));
    let v = vars(&[("all", "a")]);
    assert_eq!(block(try_extract_any_block_texture(&v)), ("a".into(), "a".into(), "a".into()));
    let v = vars(&[("layer0", "x")]);
    assert!(try_extract_any_block_texture(&v).is_none());
    let v = vars(&[("top", "t")]);
    assert_eq!(block(try_extract_any_block_texture(&v)), ("t".into(), "t".into(), "t".into()));
}

#[test]
fn item_inheriting_unknown_block_extracts_faces() {
    let m = models(
        "mymod",
        vec![
            ("block/machine", model(Some("block/block"), &[("top", "mymod:block/machine_top"), ("side", "mymod:block/machine_side")])),
            ("item/machine", model(Some("block/machine"), &[])),
            ("item/gadget", model(Some("mymod:block/machine"), &[])),
        ],
    );
    let g = sprite(resolve_item_texture("gadget", "item", &m, "mymod"));
    assert!(g == "mymod:block/machine_top" || g == "mymod:block/machine_side");
    let (t, f, r) = block(resolve_item_texture("machine", "item", &m, "mymod"));
    assert_eq!(t, "mymod:block/machine_top");
    assert_eq!(f, "mymod:block/machine_side");
    assert_eq!(r, "mymod:block/machine_side");
}

#[test]
fn last_resort_prefers_particle_then_texture() {
    let m = models("m", vec![("item/a", model(None, &[("texture", "t"), ("particle", "p")]))]);
    assert_eq!(sprite(resolve_item_texture("a", "item", &m, "m")), "p");
    let m = models("m", vec![("item/a", model(None, &[("texture", "t")]))]);
    assert_eq!(sprite(resolve_item_texture("a", "item", &m, "m")), "t");
    let m = models("m", vec![("item/a", model(None, &[("other", "o")]))]);
    assert_eq!(sprite(resolve_item_texture("a", "item", &m, "m")), "o");
    let m = models("m", vec![("item/a", model(None, &[("other", "#nothing")]))]);
    assert!(resolve_item_texture("a", "item", &m, "m").is_none());
}

#[test]
fn texture_vars_follow_reference_chains() {
    let m = models(
        "minecraft",
        vec![(
            "block/chain",
            model(
                None,
                &[("a", "#b"), ("b", "#c"), ("c", "minecraft:block/stone"), ("x", "#y"), ("y", "#x"), ("m", "#gone")],
            ),
        )],
    );
    let v = resolve_texture_vars("block/chain", &m, "minecraft", 0);
    assert_eq!(get(&v, "a"), Some("minecraft:block/stone"));
    assert_eq!(get(&v, "b"), Some("minecraft:block/stone"));
    assert_eq!(get(&v, "c"), Some("minecraft:block/stone"));
    assert_eq!(get(&v, "x"), Some("#y"));
    assert_eq!(get(&v, "y"), Some("#x"));
    assert_eq!(get(&v, "m"), Some("#gone"));
}

#[test]
fn texture_vars_chain_through_parents() {
    let m = models(
        "minecraft",
        vec![
            ("block/base", model(None, &[("side", "#edge"), ("edge", "#all")])),
            ("block/thing", model(Some("block/base"), &[("all", "minecraft:block/oak_planks")])),
        ],
    );
    let v = resolve_texture_vars("block/thing", &m, "minecraft", 0);
    assert_eq!(get(&v, "side"), Some("minecraft:block/oak_planks"));
    assert_eq!(get(&v, "edge"), Some("minecraft:block/oak_planks"));
}
