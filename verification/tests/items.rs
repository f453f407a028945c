use modpack_recipes::encoding::png_data_uri;
use modpack_recipes::fabric::{
    discover_texture_items, finish_item, lang_file_path, mod_info_from_json, model_rel_path,
    qualify_textures, resolve_fabric_items, resolve_vanilla_items, split_lang_key, texture_rel_path,
    vanilla_mod_info, ParsedFabricJar,
};
use modpack_recipes::model_resolver::{ModelJson, ModelRegistry, MultiNamespaceModels, ResolvedTexture, TextureVars};
use modpack_recipes::texture_renderer::{lookup_texture, render_texture, RenderedTexture, TextureStore};
use modpack_recipes::types::{FabricModJson, ModSource};

fn store(pairs: &[(&str, &[u8])]) -> TextureStore {
    TextureStore { entries: pairs.iter().map(|(k, v)| (k.to_string(), v.to_vec())).collect() }
}

fn sprite_model(layer0: &str) -> ModelJson {
    ModelJson {
        parent: Some("minecraft:item/generated".to_string()),
        textures: Some(TextureVars { entries: vec![("layer0".to_string(), layer0.to_string())] }),
    }
}

#[test]
fn data_uri_of_png_bytes() {
    assert_eq!(png_data_uri(&vec![1u8, 2, 3]), "data:image/png;base64,AQID");
    assert_eq!(png_data_uri(&vec![]), "data:image/png;base64,");
    assert_eq!(png_data_uri(&b"hello".to_vec()), "data:image/png;base64,aGVsbG8=");
}

#[test]
fn lookup_texture_ignores_reference_namespace() {
    let s = store(&[("block/stone", &[1]), ("mymod:item/gear", &[2])]);
    assert_eq!(lookup_texture("minecraft:block/stone", &s, "x"), Some(&vec![1u8]));
    assert_eq!(lookup_texture("block/stone", &s, "x"), Some(&vec![1u8]));
    assert_eq!(lookup_texture("other:item/gear", &s, "mymod"), Some(&vec![2u8]));
    assert_eq!(lookup_texture("item/gear", &s, "othermod"), None);
}

#[test]
fn render_sprite_and_block() {
    let s = store(&[("block/a", &[1]), ("block/b", &[2]), ("block/c", &[3])]);
    match render_texture(&ResolvedTexture::Sprite("block/a".into()), &s, "minecraft") {
        Some(RenderedTexture::Png(b)) => assert_eq!(b, vec![1]),
        _ => panic!("expected png"),
    }
    let block = ResolvedTexture::BlockIsometric { top: "block/a".into(), front: "block/b".into(), right: "block/c".into() };
    match render_texture(&block, &s, "minecraft") {
        Some(RenderedTexture::Isometric { top, front, right }) => {
            assert_eq!((top, front, right), (vec![1], vec![2], vec![3]));
        },
        _ => panic!("expected isometric"),
    }
    let missing = ResolvedTexture::BlockIsometric { top: "block/a".into(), front: "block/z".into(), right: "block/c".into() };
    assert!(render_texture(&missing, &s, "minecraft").is_none());
}

#[test]
fn mod_info_defaults() {
    let m = mod_info_from_json(FabricModJson { id: "techreborn".into(), name: None, version: None });
    assert_eq!((m.id.as_str(), m.name.as_str(), m.version.as_str()), ("techreborn", "techreborn", "unknown"));
    assert_eq!(m.source, ModSource::FabricJar);
    let m = mod_info_from_json(FabricModJson { id: "tr".into(), name: Some("Tech Reborn".into()), version: Some("5.0".into()) });
    assert_eq!((m.name.as_str(), m.version.as_str()), ("Tech Reborn", "5.0"));
    let v = vanilla_mod_info("1.19.2");
    assert_eq!((v.id.as_str(), v.name.as_str(), v.version.as_str()), ("minecraft", "Minecraft", "1.19.2"));
    assert_eq!(v.source, ModSource::VanillaJar);
}

#[test]
fn jar_paths() {
    assert_eq!(lang_file_path("create"), "assets/create/lang/en_us.json");
    assert_eq!(texture_rel_path("assets/create/textures/item/gear.png", "create"), Some("item/gear".to_string()));
    assert_eq!(texture_rel_path("assets/create/textures/block/a/b.png", "create"), Some("block/a/b".to_string()));
    assert_eq!(texture_rel_path("assets/create/textures/item/gear.json", "create"), None);
    assert_eq!(texture_rel_path("assets/other/textures/item/gear.png", "create"), None);
    assert_eq!(model_rel_path("assets/create/models/item/gear.json", "create"), Some("item/gear".to_string()));
    assert_eq!(model_rel_path("assets/create/models/item/gear.png", "create"), None);
}

#[test]
fn lang_key_split() {
    assert_eq!(
        split_lang_key("item.create.gear.big"),
        Some(("item".to_string(), "create".to_string(), "gear.big".to_string()))
    );
    assert_eq!(split_lang_key("item.create"), None);
    assert_eq!(split_lang_key("gui"), None);
}

fn parsed(lang: &[(&str, &str)], textures: &[(&str, &[u8])]) -> ParsedFabricJar {
    ParsedFabricJar {
        mod_info: mod_info_from_json(FabricModJson { id: "gems".into(), name: None, version: None }),
        mod_id: "gems".into(),
        lang_map: lang.iter().map(|(k, v)| (k.to_string(), v.to_string())).collect(),
        textures: store(textures),
        model_registry: ModelRegistry { entries: vec![] },
    }
}

#[test]
fn fabric_items_from_lang_entries() {
    let p = parsed(
        &[("item.gems.ruby", "Ruby"), ("block.gems.ruby_block", "Block of Ruby"), ("item.other.x", "X"), ("tooltip.gems.ruby", "T")],
        &[("item/ruby", &[7]), ("item/ruby_gem", &[8])],
    );
    let models = MultiNamespaceModels {
        entries: vec![(
            "gems".to_string(),
            ModelRegistry { entries: vec![("item/ruby".to_string(), sprite_model("gems:item/ruby_gem"))] },
        )],
    };
    let shared = store(&[]);
    let planned = resolve_fabric_items(&p, &models, &shared);
    assert_eq!(planned.len(), 2);
    assert_eq!(planned[0].item.id, "gems:ruby");
    assert_eq!(planned[0].item.display_name, "Ruby");
    assert!(matches!(&planned[0].candidates[0], RenderedTexture::Png(b) if b == &vec![8]));
    assert!(matches!(&planned[0].candidates[1], RenderedTexture::Png(b) if b == &vec![7]));
    assert_eq!(planned[1].item.id, "gems:ruby_block");
    assert_eq!(planned[1].item.name, "ruby_block");
    assert!(planned[1].candidates.is_empty());
    let items: Vec<_> = planned.into_iter().map(|p| {
        let renders = vec![None; p.candidates.len()];
        finish_item(p, &renders)
    }).collect();
    assert_eq!(items[0].texture_base64.as_deref(), Some("data:image/png;base64,CA=="));
    assert_eq!(items[1].texture_base64, None);
    assert_eq!(items[0].source, ModSource::FabricJar);
}

#[test]
fn fabric_items_from_textures_without_lang() {
    let p = parsed(&[], &[("item/blue_sapphire", &[1]), ("block/sub/thing", &[2]), ("gui/icon", &[3]), ("block/slab", &[4])]);
    let models = MultiNamespaceModels { entries: vec![] };
    let planned = resolve_fabric_items(&p, &models, &store(&[]));
    assert_eq!(planned.len(), 2);
    assert_eq!(planned[0].item.display_name, "Blue Sapphire");
    assert_eq!(planned[0].item.id, "gems:blue_sapphire");
    assert_eq!(planned[1].item.name, "slab");
    let found = discover_texture_items("gems", &p.textures, ModSource::FabricJar);
    assert_eq!(found.len(), 2);
}

#[test]
fn isometric_candidate_uses_caller_rendering() {
    let models = MultiNamespaceModels {
        entries: vec![(
            "minecraft".to_string(),
            ModelRegistry {
                entries: vec![(
                    "block/stone".to_string(),
                    ModelJson {
                        parent: Some("block/cube_all".to_string()),
                        textures: Some(TextureVars { entries: vec![("all".to_string(), "block/stone".to_string())] }),
                    },
                )],
            },
        )],
    };
    let textures = store(&[("block/stone", &[5])]);
    let lang = vec![("block.minecraft.stone".to_string(), "Stone".to_string())];
    let planned = resolve_vanilla_items(&lang, &models, &textures);
    assert_eq!(planned.len(), 1);
    assert_eq!(planned[0].candidates.len(), 2);
    assert!(matches!(planned[0].candidates[0], RenderedTexture::Isometric { .. }));
    let p = planned.into_iter().next().unwrap();
    let it = finish_item(p, &vec![Some(vec![9u8]), None]);
    assert_eq!(it.texture_base64.as_deref(), Some("data:image/png;base64,CQ=="));
    assert_eq!(it.source, ModSource::VanillaJar);
    let planned = resolve_vanilla_items(&lang, &models, &textures);
    let p = planned.into_iter().next().unwrap();
    let it = finish_item(p, &vec![None, None]);
    assert_eq!(it.texture_base64.as_deref(), Some("data:image/png;base64,BQ=="));
}

#[test]
fn qualified_textures() {
    let q = qualify_textures("gems", &store(&[("item/ruby", &[1])]));
    assert_eq!(q.entries, vec![("gems:item/ruby".to_string(), vec![1u8])]);
}
