//! Mods, items and the result of loading a modpack.
use vstd::prelude::*;

verus! {

/// Where a mod's or an item's data came from.
#[derive(Clone, Copy, Debug, PartialEq, Eq, Structural)]
pub enum ModSource {
    /// Loaded from a .jar file in the mods folder.
    FabricJar,
    /// Registered via KubeJS startup scripts.
    KubeJs,
    /// Loaded from the Minecraft client jar.
    VanillaJar,
}

/// Metadata about a single mod (from fabric.mod.json or KubeJS).
pub struct ModInfo {
    /// Mod identifier (e.g. "techreborn", "kubejs").
    pub id: String,
    /// Human-readable mod name.
    pub name: String,
    /// Mod version string.
    pub version: String,
    /// Source of this mod's data.
    pub source: ModSource,
}

/// A single game item with its metadata and texture.
pub struct ItemInfo {
    /// Full namespaced ID (e.g. "techreborn:ruby").
    pub id: String,
    /// The mod/namespace this item belongs to (e.g. "techreborn").
    pub mod_id: String,
    /// Short item name without namespace (e.g. "ruby").
    pub name: String,
    /// Human-readable display name (e.g. "Ruby").
    pub display_name: String,
    /// PNG texture as a `data:image/png;base64,` URI, if one was found.
    pub texture_base64: Option<String>,
    /// Where this item came from.
    pub source: ModSource,
}

/// The complete result of loading all mods and items.
pub struct LoadedMods {
    /// All discovered mods.
    pub mods: Vec<ModInfo>,
    /// All discovered items, grouped by mod id: (mod id, items).
    pub items: Vec<(String, Vec<ItemInfo>)>,
    /// Total number of items loaded.
    pub total_items: usize,
    /// Warnings and errors met while loading.
    pub warnings: Vec<String>,
}

/// The fields of fabric.mod.json that loading reads.
pub struct FabricModJson {
    pub id: String,
    pub name: Option<String>,
    pub version: Option<String>,
}

/// A copy of a string.
pub fn copy_string(s: &String) -> (r: String)
    ensures
        r == *s,
{
    s.clone()
}

/// A copy of an optional string.
pub fn copy_opt_string(s: &Option<String>) -> (r: Option<String>)
    ensures
        r == *s,
{
    match s {
        Some(x) => Some(copy_string(x)),
        None => None,
    }
}

impl ModInfo {
    /// A copy of this mod's metadata.
    pub fn copy(&self) -> (r: ModInfo)
        ensures
            r == *self,
    {
        ModInfo {
            id: copy_string(&self.id),
            name: copy_string(&self.name),
            version: copy_string(&self.version),
            source: self.source,
        }
    }
}

impl ItemInfo {
    /// A copy of this item.
    pub fn copy(&self) -> (r: ItemInfo)
        ensures
            r == *self,
    {
        ItemInfo {
            id: copy_string(&self.id),
            mod_id: copy_string(&self.mod_id),
            name: copy_string(&self.name),
            display_name: copy_string(&self.display_name),
            texture_base64: copy_opt_string(&self.texture_base64),
            source: self.source,
        }
    }
}

/// A copy of a list of items.
pub fn copy_items(v: &Vec<ItemInfo>) -> (r: Vec<ItemInfo>)
    ensures
        r@ == v@,
{
    let mut r: Vec<ItemInfo> = Vec::new();
    let mut i: usize = 0;
    while i < v.len()
        invariant
            i <= v@.len(),
            r@ == v@.take(i as int),
        decreases v.len() - i,
    {
        r.push(v[i].copy());
        proof { assert(v@.take(i + 1) =~= v@.take(i as int).push(v@[i as int])); }
        i += 1;
    }
    proof { assert(v@.take(v@.len() as int) =~= v@); }
    r
}

/// A copy of a list of strings.
pub fn copy_strings(v: &Vec<String>) -> (r: Vec<String>)
    ensures
        r@ == v@,
{
    let mut r: Vec<String> = Vec::new();
    let mut i: usize = 0;
    while i < v.len()
        invariant
            i <= v@.len(),
            r@ == v@.take(i as int),
        decreases v.len() - i,
    {
        r.push(copy_string(&v[i]));
        proof { assert(v@.take(i + 1) =~= v@.take(i as int).push(v@[i as int])); }
        i += 1;
    }
    proof { assert(v@.take(v@.len() as int) =~= v@); }
    r
}

} // verus!
