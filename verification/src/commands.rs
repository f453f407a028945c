//! Application state and the decisions of the app's commands.
use vstd::prelude::*;
use crate::text::{concat2, concat3, to_owned_string};
use crate::types::{copy_items, copy_opt_string, copy_string, copy_strings, ItemInfo, LoadedMods, ModInfo};

verus! {

broadcast use vstd::seq_lib::group_seq_properties;

// ---------------------------------------------------------------------------
// Paths
// ---------------------------------------------------------------------------

/// One component of a filesystem path.
pub enum PathComponent {
    /// A Windows path prefix such as `C:`.
    Prefix(String),
    /// The root directory.
    RootDir,
    /// `.`
    CurDir,
    /// `..`
    ParentDir,
    /// A named component.
    Normal(String),
}

/// Whether a component is a named one.
pub open spec fn is_normal(c: PathComponent) -> bool {
    c is Normal
}

/// Components with `.` dropped and each `..` removing the named component
/// before it. A `..` with no named component before it changes nothing: the
/// parent of the root (or of a prefix) is itself, and a relative path has
/// nothing to go up from.
pub open spec fn normalize_spec(cs: Seq<PathComponent>) -> Seq<PathComponent>
    decreases cs.len(),
{
    if cs.len() == 0 {
        cs
    } else {
        let before = normalize_spec(cs.drop_last());
        match cs.last() {
            PathComponent::ParentDir => if before.len() > 0 && is_normal(before.last()) {
                before.drop_last()
            } else {
                before
            },
            PathComponent::CurDir => before,
            c => before.push(c),
        }
    }
}

/// Resolves `.` and `..` components without consulting the filesystem.
pub fn normalize_path(path: Vec<PathComponent>) -> (r: Vec<PathComponent>)
    ensures
        r@ == normalize_spec(path@),
{
    let ghost orig = path@;
    let mut rest = path;
    let mut components: Vec<PathComponent> = Vec::new();
    let n = rest.len();
    let mut i: usize = 0;
    while i < n
        invariant
            n == orig.len(),
            i <= n,
            rest@ == orig.skip(i as int),
            components@ == normalize_spec(orig.take(i as int)),
        decreases n - i,
    {
        let c = rest.remove(0);
        proof {
            assert(orig.skip(i as int).drop_first() =~= orig.skip(i + 1));
            assert(orig.take(i + 1).drop_last() =~= orig.take(i as int));
            assert(orig.take(i + 1).last() == c);
        }
        match c {
            PathComponent::ParentDir => {
                let len = components.len();
                if len > 0 {
                    let named = match &components[len - 1] {
                        PathComponent::Normal(_) => true,
                        _ => false,
                    };
                    if named {
                        components.pop();
                    }
                }
            },
            PathComponent::CurDir => {},
            c => {
                components.push(c);
            },
        }
        i += 1;
    }
    proof { assert(orig.take(n as int) =~= orig); }
    components
}

// ---------------------------------------------------------------------------
// Minecraft instance file
// ---------------------------------------------------------------------------

/// The `baseModLoader` of minecraftinstance.json.
pub struct BaseModLoader {
    pub minecraft_version: Option<String>,
}

/// The part of minecraftinstance.json (CurseForge) that is read.
pub struct MinecraftInstance {
    pub base_mod_loader: Option<BaseModLoader>,
}

/// `baseModLoader.minecraftVersion`, if present.
pub fn minecraft_version_of(instance: MinecraftInstance) -> (r: Option<String>)
    ensures
        r == match instance.base_mod_loader {
            Some(b) => b.minecraft_version,
            None => None,
        },
{
    match instance.base_mod_loader {
        Some(b) => b.minecraft_version,
        None => None,
    }
}

// ---------------------------------------------------------------------------
// Commands
// ---------------------------------------------------------------------------

/// Checks a candidate modpack directory: it must be a directory holding a
/// `mods` directory.
pub fn validate_modpack_dir(display: &str, is_dir: bool, mods_is_dir: bool) -> (r: Result<(), String>)
    ensures
        !is_dir ==> (r matches Err(e) && e@ == "Invalid directory: "@ + display@),
        is_dir && !mods_is_dir ==> (r matches Err(e) && e@ == "No 'mods' folder found in "@ + display@
            + ". Select the modpack root directory."@),
        is_dir && mods_is_dir ==> r is Ok,
{
    if !is_dir {
        return Err(concat2("Invalid directory: ", display));
    }
    if !mods_is_dir {
        return Err(concat3("No 'mods' folder found in ", display, ". Select the modpack root directory."));
    }
    Ok(())
}

/// The warning when no Minecraft version is known.
pub fn missing_version_warning() -> (r: String)
    ensures
        r@ == "minecraftinstance.json not found or missing baseModLoader.minecraftVersion; vanilla items skipped."@,
{
    to_owned_string("minecraftinstance.json not found or missing baseModLoader.minecraftVersion; vanilla items skipped.")
}

/// The warning when the Minecraft jar is not where it is expected.
pub fn missing_jar_warning(jar: &str) -> (r: String)
    ensures
        r@ == "Minecraft JAR not found at '"@ + jar@
            + "', vanilla items skipped. Check that the CurseForge install directory is at the expected location."@,
{
    concat3(
        "Minecraft JAR not found at '",
        jar,
        "', vanilla items skipped. Check that the CurseForge install directory is at the expected location.",
    )
}

/// Two loaded results hold the same mods, groups of items, count and warnings.
pub open spec fn same_loaded(a: LoadedMods, b: LoadedMods) -> bool {
    &&& a.mods@ == b.mods@
    &&& a.items@.len() == b.items@.len()
    &&& forall|g: int| 0 <= g < a.items@.len() ==> (#[trigger] a.items@[g]).0 == b.items@[g].0
        && a.items@[g].1@ == b.items@[g].1@
    &&& a.total_items == b.total_items
    &&& a.warnings@ == b.warnings@
}

/// A copy of a loaded result.
pub fn copy_loaded(m: &LoadedMods) -> (r: LoadedMods)
    ensures
        same_loaded(r, *m),
{
    let mut mods: Vec<ModInfo> = Vec::new();
    let mut i: usize = 0;
    while i < m.mods.len()
        invariant
            i <= m.mods@.len(),
            mods@ == m.mods@.take(i as int),
        decreases m.mods.len() - i,
    {
        mods.push(m.mods[i].copy());
        proof { assert(m.mods@.take(i + 1) =~= m.mods@.take(i as int).push(m.mods@[i as int])); }
        i += 1;
    }
    proof { assert(m.mods@.take(m.mods@.len() as int) =~= m.mods@); }
    let mut items: Vec<(String, Vec<ItemInfo>)> = Vec::new();
    let mut g: usize = 0;
    while g < m.items.len()
        invariant
            g <= m.items@.len(),
            items@.len() == g,
            forall|h: int| 0 <= h < g ==> (#[trigger] items@[h]).0 == m.items@[h].0 && items@[h].1@ == m.items@[h].1@,
        decreases m.items.len() - g,
    {
        items.push((copy_string(&m.items[g].0), copy_items(&m.items[g].1)));
        g += 1;
    }
    LoadedMods { mods, items, total_items: m.total_items, warnings: copy_strings(&m.warnings) }
}

/// Application state: the selected modpack directory, the last loaded
/// result, and the detected Minecraft version.
pub struct AppState {
    pub modpack_dir: Option<String>,
    pub loaded_mods: Option<LoadedMods>,
    pub minecraft_version: Option<String>,
}

impl Default for AppState {
    fn default() -> (r: AppState)
        ensures
            r.modpack_dir is None,
            r.loaded_mods is None,
            r.minecraft_version is None,
    {
        AppState { modpack_dir: None, loaded_mods: None, minecraft_version: None }
    }
}

impl AppState {
    /// Selects a modpack directory and the Minecraft version found there.
    pub fn select_modpack(&mut self, path: String, minecraft_version: Option<String>)
        ensures
            final(self).modpack_dir == Some(path),
            final(self).minecraft_version == minecraft_version,
            final(self).loaded_mods == old(self).loaded_mods,
    {
        self.minecraft_version = minecraft_version;
        self.modpack_dir = Some(path);
    }

    /// The selected modpack directory.
    pub fn modpack_path(&self) -> (r: Result<String, String>)
        ensures
            match self.modpack_dir {
                Some(p) => r == Ok::<String, String>(p),
                None => r matches Err(e) && e@ == "No modpack directory selected"@,
            },
    {
        match &self.modpack_dir {
            Some(p) => Ok(copy_string(p)),
            None => Err(to_owned_string("No modpack directory selected")),
        }
    }

    /// The detected Minecraft version.
    pub fn detected_version(&self) -> (r: Option<String>)
        ensures
            r == self.minecraft_version,
    {
        copy_opt_string(&self.minecraft_version)
    }

    /// Adds the app's own warnings to a loaded result, keeps a copy of it as
    /// the current result, and returns it.
    pub fn store_loaded(&mut self, loaded: LoadedMods, extra_warnings: Vec<String>) -> (r: LoadedMods)
        ensures
            r.mods == loaded.mods,
            r.items == loaded.items,
            r.total_items == loaded.total_items,
            r.warnings@ == loaded.warnings@ + extra_warnings@,
            final(self).loaded_mods matches Some(c) && same_loaded(c, r),
            final(self).modpack_dir == old(self).modpack_dir,
            final(self).minecraft_version == old(self).minecraft_version,
    {
        let mut loaded = loaded;
        let mut extra = extra_warnings;
        loaded.warnings.append(&mut extra);
        self.loaded_mods = Some(copy_loaded(&loaded));
        loaded
    }

    /// The current loaded result, without scanning again.
    pub fn get_loaded_mods(&self) -> (r: Result<LoadedMods, String>)
        ensures
            match self.loaded_mods {
                Some(m) => r matches Ok(c) && same_loaded(c, m),
                None => r matches Err(e) && e@ == "No mods loaded yet"@,
            },
    {
        match &self.loaded_mods {
            Some(m) => Ok(copy_loaded(m)),
            None => Err(to_owned_string("No mods loaded yet")),
        }
    }
}

} // verus!
