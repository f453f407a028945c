use modpack_recipes::commands::{
    minecraft_version_of, missing_jar_warning, missing_version_warning, normalize_path,
    validate_modpack_dir, AppState, BaseModLoader, MinecraftInstance, PathComponent,
};
use modpack_recipes::mod_loader::{
    kubejs_error_warning, read_mods_dir_warning, skip_jar_warning, sort_items, sort_mods,
    vanilla_error_warning, ModLoader,
};
use modpack_recipes::texture_renderer::TextureStore;
use modpack_recipes::types::{ItemInfo, ModInfo, ModSource};

fn item(mod_id: &str, name: &str, display: &str) -> ItemInfo {
    ItemInfo {
        id: format!("{}:{}", mod_id, name),
        mod_id: mod_id.to_string(),
        name: name.to_string(),
        display_name: display.to_string(),
        texture_base64: None,
        source: ModSource::FabricJar,
    }
}

fn mod_info(id: &str, name: &str) -> ModInfo {
    ModInfo { id: id.to_string(), name: name.to_string(), version: "1".to_string(), source: ModSource::FabricJar }
}

#[test]
fn mods_listed_minecraft_first_then_by_name() {
    let mods = vec![mod_info("zeta", "zeta"), mod_info("alpha", "Beta"), mod_info("minecraft", "Minecraft"), mod_info("b", "alpha")];
    let sorted = sort_mods(mods);
    let ids: Vec<&str> = sorted.iter().map(|m| m.id.as_str()).collect();
    assert_eq!(ids, vec!["minecraft", "b", "alpha", "zeta"]);
}

#[test]
fn items_sorted_by_display_name_stably() {
    let items = vec![item("m", "c", "banana"), item("m", "a", "Apple"), item("m", "b", "apple"), item("m", "d", "Cherry")];
    let sorted = sort_items(items);
    let names: Vec<&str> = sorted.iter().map(|i| i.name.as_str()).collect();
    assert_eq!(names, vec!["a", "b", "c", "d"]);
}

#[test]
fn loader_counts_and_groups_items() {
    let mut l = ModLoader::new();
    l.add_mod(mod_info("gems", "Gems"), vec![item("gems", "ruby", "Ruby")]);
    l.add_mod(mod_info("minecraft", "Minecraft"), vec![item("minecraft", "stone", "Stone"), item("minecraft", "dirt", "Dirt")]);
    l.add_mod(mod_info("gems", "Gems Again"), vec![item("gems", "opal", "Opal")]);
    assert_eq!(l.total_items, 4);
    assert_eq!(l.items.len(), 2);
    assert!(l.has_mod("gems"));
    assert!(!l.has_mod("kubejs"));
    l.add_warning(skip_jar_warning("broken.jar", "bad zip"));
    let loaded = l.finish();
    assert_eq!(loaded.total_items, 4);
    assert_eq!(loaded.mods[0].id, "minecraft");
    assert_eq!(loaded.mods[1].name, "Gems");
    assert_eq!(loaded.items[0].0, "gems");
    assert_eq!(loaded.items[0].1.iter().map(|i| i.name.as_str()).collect::<Vec<_>>(), vec!["opal", "ruby"]);
    assert_eq!(loaded.items[1].1.iter().map(|i| i.name.as_str()).collect::<Vec<_>>(), vec!["dirt", "stone"]);
    assert_eq!(loaded.warnings, vec!["Skipping broken.jar: bad zip".to_string()]);
    let total: usize = loaded.items.iter().map(|(_, v)| v.len()).sum();
    assert_eq!(total, loaded.total_items);
}

#[test]
fn kubejs_items_and_overrides() {
    let mut l = ModLoader::new();
    l.add_mod(mod_info("gems", "Gems"), vec![item("gems", "ruby", "Ruby"), item("gems", "opal", "Opal")]);
    let kjs = vec![ItemInfo { source: ModSource::KubeJs, ..item("kubejs", "dust", "Dust") }];
    let tex = TextureStore { entries: vec![("gems:block/ruby".to_string(), vec![1, 2, 3])] };
    let lang = vec![("item.gems.opal".to_string(), "Shiny Opal".to_string()), ("block.kubejs.dust".to_string(), "Fine Dust".to_string())];
    l.add_kubejs(kjs, &tex, &lang);
    assert_eq!(l.total_items, 3);
    assert!(l.mods.iter().any(|m| m.id == "kubejs" && m.name == "KubeJS" && m.version == "custom" && m.source == ModSource::KubeJs));
    let gems = &l.items[0].1;
    assert_eq!(gems[0].texture_base64.as_deref(), Some("data:image/png;base64,AQID"));
    assert_eq!(gems[1].display_name, "Shiny Opal");
    assert_eq!(l.items[1].0, "kubejs");
    assert_eq!(l.items[1].1[0].display_name, "Fine Dust");
    l.add_kubejs(vec![ItemInfo { source: ModSource::KubeJs, ..item("kubejs", "more", "More") }], &TextureStore { entries: vec![] }, &vec![]);
    assert_eq!(l.mods.iter().filter(|m| m.id == "kubejs").count(), 1);
    assert_eq!(l.items[1].1.len(), 2);
    assert_eq!(l.total_items, 4);
}

#[test]
fn failed_listing_still_finishes() {
    let mut l = ModLoader::new();
    l.add_mod(mod_info("zeta", "Zeta"), vec![item("zeta", "b", "B"), item("zeta", "a", "A")]);
    l.add_warning(read_mods_dir_warning("permission denied"));
    let loaded = l.finish();
    assert_eq!(loaded.items[0].1[0].name, "a");
    assert_eq!(loaded.items[0].1[1].name, "b");
    assert_eq!(loaded.total_items, 2);
    assert_eq!(loaded.warnings[0], "Failed to read mods directory: permission denied");
}

#[test]
fn warning_texts() {
    assert_eq!(vanilla_error_warning("e"), "Vanilla Minecraft loading error: e");
    assert_eq!(kubejs_error_warning("e"), "KubeJS loading error: e");
    assert_eq!(missing_jar_warning("/x.jar"), "Minecraft JAR not found at '/x.jar', vanilla items skipped. Check that the CurseForge install directory is at the expected location.");
    assert_eq!(missing_version_warning(), "minecraftinstance.json not found or missing baseModLoader.minecraftVersion; vanilla items skipped.");
}

fn normal(s: &str) -> PathComponent {
    PathComponent::Normal(s.to_string())
}

fn show(cs: &[PathComponent]) -> Vec<String> {
    cs.iter().map(|c| match c {
        PathComponent::Prefix(p) => p.clone(),
        PathComponent::RootDir => "/".to_string(),
        PathComponent::CurDir => ".".to_string(),
        PathComponent::ParentDir => "..".to_string(),
        PathComponent::Normal(n) => n.clone(),
    }).collect()
}

#[test]
fn normalize_resolves_dots() {
    let p = vec![PathComponent::RootDir, normal("home"), normal("pack"), PathComponent::ParentDir, PathComponent::ParentDir,
        normal("Install"), PathComponent::CurDir, normal("versions")];
    assert_eq!(show(&normalize_path(p)), vec!["/", "Install", "versions"]);
    let p = vec![PathComponent::ParentDir, normal("a")];
    assert_eq!(show(&normalize_path(p)), vec!["a"]);
    let p = vec![PathComponent::RootDir, PathComponent::ParentDir, normal("a")];
    assert_eq!(show(&normalize_path(p)), vec!["/", "a"]);
    let p = vec![PathComponent::Prefix("C:".to_string()), PathComponent::RootDir, normal("x"), PathComponent::ParentDir,
        PathComponent::ParentDir, PathComponent::ParentDir, normal("y")];
    assert_eq!(show(&normalize_path(p)), vec!["C:", "/", "y"]);
    let p = vec![PathComponent::RootDir, normal("a"), normal("b"), PathComponent::ParentDir, normal("c"),
        PathComponent::CurDir, normal("d")];
    assert_eq!(show(&normalize_path(p)), vec!["/", "a", "c", "d"]);
    let p = vec![normal("a"), PathComponent::CurDir, normal("b"), PathComponent::ParentDir];
    assert_eq!(show(&normalize_path(p)), vec!["a"]);
}

#[test]
fn modpack_dir_checks() {
    assert_eq!(validate_modpack_dir("/x", false, false), Err("Invalid directory: /x".to_string()));
    assert_eq!(
        validate_modpack_dir("/x", true, false),
        Err("No 'mods' folder found in /x. Select the modpack root directory.".to_string())
    );
    assert_eq!(validate_modpack_dir("/x", true, true), Ok(()));
}

#[test]
fn app_state_caches_loaded_result() {
    let mut state = AppState::default();
    assert!(state.modpack_dir.is_none() && state.minecraft_version.is_none());
    assert_eq!(state.modpack_path().err(), Some("No modpack directory selected".to_string()));
    assert_eq!(state.get_loaded_mods().err(), Some("No mods loaded yet".to_string()));
    state.select_modpack("/pack".to_string(), Some("1.19.2".to_string()));
    assert_eq!(state.modpack_path(), Ok("/pack".to_string()));
    assert_eq!(state.detected_version(), Some("1.19.2".to_string()));
    let mut l = ModLoader::new();
    l.add_mod(mod_info("gems", "Gems"), vec![item("gems", "ruby", "Ruby")]);
    let loaded = state.store_loaded(l.finish(), vec!["extra".to_string()]);
    assert_eq!(loaded.warnings, vec!["extra".to_string()]);
    let again = state.get_loaded_mods().unwrap();
    assert_eq!(again.total_items, 1);
    assert_eq!(again.items[0].1[0].id, "gems:ruby");
    assert_eq!(again.warnings, loaded.warnings);
}

#[test]
fn minecraft_version_from_instance() {
    let inst = MinecraftInstance { base_mod_loader: Some(BaseModLoader { minecraft_version: Some("1.19.2".into()) }) };
    assert_eq!(minecraft_version_of(inst), Some("1.19.2".to_string()));
    assert_eq!(minecraft_version_of(MinecraftInstance { base_mod_loader: None }), None);
}

#[test]
fn normalize_is_idempotent_and_drops_dots() {
    let p = vec![PathComponent::CurDir, normal("a"), PathComponent::ParentDir, PathComponent::ParentDir, normal("b"), PathComponent::CurDir, normal("c")];
    let once = normalize_path(p);
    assert!(once.iter().all(|c| !matches!(c, PathComponent::CurDir | PathComponent::ParentDir)));
    let shown = show(&once);
    let twice = normalize_path(once);
    assert_eq!(show(&twice), shown);
    assert_eq!(shown, vec!["b", "c"]);
}
