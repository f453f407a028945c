//! Items of a mod jar: from its lang file, with textures found through its
//! models, or from its texture files when it has no lang entries.
use vstd::prelude::*;
use crate::lang::keys_distinct;
use crate::assoc::find_key;
use crate::encoding::{png_data_uri, png_uri_spec};
use crate::kubejs::{snake_to_title, snake_to_title_spec};
use crate::model_resolver::{item_texture_allows, resolve_item_texture, resolved_view, ModelRegistry, ModelsView, MultiNamespaceModels, ResolvedView};
use crate::text::{chars_of, concat3, ends_with, find_char, first_index_of, seq_ends_with, seq_starts_with, str_eq, string_from, strip_prefix, strip_suffix, to_owned_string};
use crate::texture_renderer::{copy_bytes, render_spec, render_texture, rendered_view, RenderedTexture, RenderedView, TextureStore};
use crate::types::{copy_string, FabricModJson, ItemInfo, ModInfo, ModSource};

verus! {

broadcast use vstd::seq_lib::group_seq_properties;

/// What reading one mod jar gives: metadata, lang entries, textures
/// (keyed by path below `textures/`) and models (keyed by path below `models/`).
pub struct ParsedFabricJar {
    pub mod_info: ModInfo,
    pub mod_id: String,
    pub lang_map: Vec<(String, String)>,
    pub textures: TextureStore,
    pub model_registry: ModelRegistry,
}

/// An item with the textures that may draw it, best first.
pub struct PlannedItem {
    pub item: ItemInfo,
    pub candidates: Vec<RenderedTexture>,
}

// ---------------------------------------------------------------------------
// Metadata and paths
// ---------------------------------------------------------------------------

/// A mod's metadata from its fabric.mod.json: the name defaults to the id,
/// the version to `unknown`.
pub fn mod_info_from_json(json: FabricModJson) -> (r: ModInfo)
    ensures
        r.id == json.id,
        r.name@ == match json.name {
            Some(n) => n@,
            None => json.id@,
        },
        r.version@ == match json.version {
            Some(v) => v@,
            None => "unknown"@,
        },
        r.source == ModSource::FabricJar,
{
    let id = json.id;
    let name = match json.name {
        Some(n) => n,
        None => copy_string(&id),
    };
    let version = match json.version {
        Some(v) => v,
        None => to_owned_string("unknown"),
    };
    ModInfo { id, name, version, source: ModSource::FabricJar }
}

/// The metadata of the Minecraft client jar.
pub fn vanilla_mod_info(mc_version: &str) -> (r: ModInfo)
    ensures
        r.id@ == "minecraft"@,
        r.name@ == "Minecraft"@,
        r.version@ == mc_version@,
        r.source == ModSource::VanillaJar,
{
    ModInfo {
        id: to_owned_string("minecraft"),
        name: to_owned_string("Minecraft"),
        version: to_owned_string(mc_version),
        source: ModSource::VanillaJar,
    }
}

/// The path of a mod's English lang file in its jar.
pub fn lang_file_path(mod_id: &str) -> (r: String)
    ensures
        r@ == "assets/"@ + mod_id@ + "/lang/en_us.json"@,
{
    concat3("assets/", mod_id, "/lang/en_us.json")
}

/// The path of a jar entry below `assets/<mod_id>/<dir>/`, without the
/// extension, for entries that end with it.
pub open spec fn asset_rel_spec(file_name: Seq<char>, prefix: Seq<char>, ext: Seq<char>) -> Option<Seq<char>> {
    if !seq_ends_with(file_name, ext) || !seq_starts_with(file_name, prefix) {
        None
    } else {
        let rest = file_name.skip(prefix.len() as int);
        if seq_ends_with(rest, ext) {
            Some(rest.take(rest.len() - ext.len()))
        } else {
            Some(rest)
        }
    }
}

/// The path below `prefix` of a jar entry ending in `ext`, without `ext`.
fn asset_rel_path(file_name: &str, prefix: &str, ext: &str) -> (r: Option<String>)
    ensures
        match r {
            Some(p) => asset_rel_spec(file_name@, prefix@, ext@) == Some(p@),
            None => asset_rel_spec(file_name@, prefix@, ext@) is None,
        },
{
    if !ends_with(file_name, ext) {
        return None;
    }
    match strip_prefix(file_name, prefix) {
        None => None,
        Some(rest) => match strip_suffix(rest.as_str(), ext) {
            Some(p) => Some(p),
            None => Some(rest),
        },
    }
}

/// The texture path (e.g. `item/ruby`) of a jar entry
/// `assets/<mod_id>/textures/<path>.png`.
pub fn texture_rel_path(file_name: &str, mod_id: &str) -> (r: Option<String>)
    ensures
        match r {
            Some(p) => asset_rel_spec(file_name@, "assets/"@ + mod_id@ + "/textures/"@, ".png"@) == Some(p@),
            None => asset_rel_spec(file_name@, "assets/"@ + mod_id@ + "/textures/"@, ".png"@) is None,
        },
{
    let prefix = concat3("assets/", mod_id, "/textures/");
    asset_rel_path(file_name, prefix.as_str(), ".png")
}

/// The model path (e.g. `item/ruby`) of a jar entry
/// `assets/<mod_id>/models/<path>.json`.
pub fn model_rel_path(file_name: &str, mod_id: &str) -> (r: Option<String>)
    ensures
        match r {
            Some(p) => asset_rel_spec(file_name@, "assets/"@ + mod_id@ + "/models/"@, ".json"@) == Some(p@),
            None => asset_rel_spec(file_name@, "assets/"@ + mod_id@ + "/models/"@, ".json"@) is None,
        },
{
    let prefix = concat3("assets/", mod_id, "/models/");
    asset_rel_path(file_name, prefix.as_str(), ".json")
}

// ---------------------------------------------------------------------------
// Lang keys
// ---------------------------------------------------------------------------

/// A lang key `kind.namespace.name` split at its first two dots.
pub open spec fn lang_key_parts(k: Seq<char>) -> Option<(Seq<char>, Seq<char>, Seq<char>)> {
    match first_index_of(k, '.') {
        None => None,
        Some(i) => {
            let rest = k.skip(i + 1);
            match first_index_of(rest, '.') {
                None => None,
                Some(j) => Some((k.take(i), rest.take(j), rest.skip(j + 1))),
            }
        },
    }
}

/// The kind and name of the item that a lang key of mod `mod_id` names:
/// keys `item.<mod_id>.<name>` and `block.<mod_id>.<name>`.
pub open spec fn lang_item(k: Seq<char>, mod_id: Seq<char>) -> Option<(Seq<char>, Seq<char>)> {
    match lang_key_parts(k) {
        Some(parts) => if parts.1 == mod_id && (parts.0 == "item"@ || parts.0 == "block"@) {
            Some((parts.0, parts.2))
        } else {
            None
        },
        None => None,
    }
}

/// Kind, name and display name of the items that lang entries name, in order.
pub open spec fn lang_items_spec(entries: Seq<(String, String)>, mod_id: Seq<char>) -> Seq<(Seq<char>, Seq<char>, Seq<char>)>
    decreases entries.len(),
{
    if entries.len() == 0 {
        Seq::empty()
    } else {
        let before = lang_items_spec(entries.drop_last(), mod_id);
        match lang_item(entries.last().0@, mod_id) {
            Some(kn) => before.push((kn.0, kn.1, entries.last().1@)),
            None => before,
        }
    }
}

/// A lang key split at its first two dots.
pub fn split_lang_key(key: &str) -> (r: Option<(String, String, String)>)
    ensures
        match r {
            Some(p) => lang_key_parts(key@) == Some((p.0@, p.1@, p.2@)),
            None => lang_key_parts(key@) is None,
        },
{
    let v = chars_of(key);
    let i = match find_char(&v, '.') {
        Some(i) => i,
        None => return None,
    };
    let n = v.len();
    proof { assert(i < n); }
    let rest = string_from(&v, i + 1, n);
    let w = chars_of(rest.as_str());
    let j = match find_char(&w, '.') {
        Some(j) => j,
        None => return None,
    };
    proof {
        assert(key@.skip(i + 1) =~= v@.subrange(i + 1, v@.len() as int));
    }
    Some((string_from(&v, 0, i), string_from(&w, 0, j), string_from(&w, j + 1, w.len())))
}

// ---------------------------------------------------------------------------
// Planning textures
// ---------------------------------------------------------------------------

/// A rendering as a sequence of zero or one candidates.
pub open spec fn opt_seq(r: Option<RenderedView>) -> Seq<RenderedView> {
    match r {
        Some(x) => seq![x],
        None => Seq::empty(),
    }
}

/// Candidates for an item's texture, best first: the resolved texture drawn
/// from the mod's own textures, then from the shared textures, then the
/// texture file named after the item.
pub open spec fn candidates_spec(
    res: Option<ResolvedView>,
    local: Map<Seq<char>, Seq<u8>>,
    shared: Option<Map<Seq<char>, Seq<u8>>>,
    ns: Seq<char>,
    fallback_key: Seq<char>,
) -> Seq<RenderedView> {
    let from_local = match res {
        Some(t) => opt_seq(render_spec(t, local, ns)),
        None => Seq::empty(),
    };
    let from_shared = match (res, shared) {
        (Some(t), Some(sh)) => opt_seq(render_spec(t, sh, ns)),
        _ => Seq::empty(),
    };
    let direct = if local.contains_key(fallback_key) {
        seq![RenderedView::Png(local[fallback_key])]
    } else {
        Seq::empty()
    };
    from_local + from_shared + direct
}

/// Views of candidate renderings.
pub open spec fn candidate_views(c: Seq<RenderedTexture>) -> Seq<RenderedView> {
    c.map_values(|r: RenderedTexture| r@)
}

/// An item of mod `mod_id` as planned from its lang entry: id
/// `<mod_id>:<name>`, the lang display name, no texture yet, and the
/// candidates of some texture that resolution may give.
pub open spec fn planned_lang_item_ok(
    p: PlannedItem,
    entry: (Seq<char>, Seq<char>, Seq<char>),
    mod_id: Seq<char>,
    models: ModelsView,
    local: Map<Seq<char>, Seq<u8>>,
    shared: Option<Map<Seq<char>, Seq<u8>>>,
    source: ModSource,
) -> bool {
    &&& p.item.id@ == mod_id + ":"@ + entry.1
    &&& p.item.mod_id@ == mod_id
    &&& p.item.name@ == entry.1
    &&& p.item.display_name@ == entry.2
    &&& p.item.texture_base64 is None
    &&& p.item.source == source
    &&& exists|res: Option<ResolvedView>|
        #[trigger] item_texture_allows(models, entry.1, entry.0, mod_id, res)
            && candidate_views(p.candidates@) == candidates_spec(res, local, shared, mod_id, entry.0 + "/"@ + entry.1)
}

/// Pushes an optional rendering onto a candidate list.
fn push_opt(v: &mut Vec<RenderedTexture>, r: Option<RenderedTexture>)
    ensures
        candidate_views(final(v)@) == candidate_views(old(v)@) + opt_seq(rendered_view(r)),
{
    proof {
        assert(candidate_views(old(v)@) + Seq::<RenderedView>::empty() =~= candidate_views(old(v)@));
    }
    match r {
        Some(x) => {
            v.push(x);
            proof { assert(candidate_views(v@) =~= candidate_views(old(v)@) + seq![x@]); }
        },
        None => {},
    }
}

/// The textures that may draw an item, best first.
fn plan_candidates(
    name: &str,
    kind: &str,
    models: &MultiNamespaceModels,
    mod_id: &str,
    local: &TextureStore,
    shared: Option<&TextureStore>,
) -> (r: Vec<RenderedTexture>)
    ensures
        exists|res: Option<ResolvedView>|
            #[trigger] item_texture_allows(models@, name@, kind@, mod_id@, res) && candidate_views(r@)
                == candidates_spec(
                res,
                local@,
                match shared {
                    Some(s) => Some(s@),
                    None => None,
                },
                mod_id@,
                kind@ + "/"@ + name@,
            ),
{
    let resolved = resolve_item_texture(name, kind, models, mod_id);
    let ghost res = resolved_view(resolved);
    let ghost sh = match shared {
        Some(s) => Some(s@),
        None => None::<Map<Seq<char>, Seq<u8>>>,
    };
    let mut out: Vec<RenderedTexture> = Vec::new();
    proof { assert(candidate_views(out@) =~= Seq::<RenderedView>::empty()); }
    match &resolved {
        Some(t) => {
            push_opt(&mut out, render_texture(t, local, mod_id));
            match shared {
                Some(s) => push_opt(&mut out, render_texture(t, s, mod_id)),
                None => {},
            }
        },
        None => {},
    }
    let ghost before = candidate_views(out@);
    let key = concat3(kind, "/", name);
    match find_key(&local.entries, key.as_str()) {
        Some(i) => {
            out.push(RenderedTexture::Png(copy_bytes(&local.entries[i].1)));
            proof { assert(candidate_views(out@) =~= before + seq![RenderedView::Png(local@[key@])]); }
        },
        None => {
            proof { assert(candidate_views(out@) =~= before + Seq::<RenderedView>::empty()); }
        },
    }
    proof {
        assert(item_texture_allows(models@, name@, kind@, mod_id@, res));
        assert(candidate_views(out@) =~= candidates_spec(res, local@, sh, mod_id@, kind@ + "/"@ + name@));
    }
    out
}

/// Items named by lang entries `item.<mod_id>.<name>` and
/// `block.<mod_id>.<name>`, in entry order, each with its texture candidates.
/// The lang map holds each key once.
pub fn plan_lang_items(
    mod_id: &str,
    lang_map: &Vec<(String, String)>,
    models: &MultiNamespaceModels,
    local: &TextureStore,
    shared: Option<&TextureStore>,
    source: ModSource,
) -> (r: Vec<PlannedItem>)
    requires
        keys_distinct(lang_map@),
    ensures
        r@.len() == lang_items_spec(lang_map@, mod_id@).len(),
        forall|i: int| 0 <= i < r@.len() ==> planned_lang_item_ok(
            #[trigger] r@[i],
            lang_items_spec(lang_map@, mod_id@)[i],
            mod_id@,
            models@,
            local@,
            match shared {
                Some(s) => Some(s@),
                None => None,
            },
            source,
        ),
{
    let ghost sh = match shared {
        Some(s) => Some(s@),
        None => None::<Map<Seq<char>, Seq<u8>>>,
    };
    let mut items: Vec<PlannedItem> = Vec::new();
    let mut i: usize = 0;
    while i < lang_map.len()
        invariant
            sh == match shared {
                Some(s) => Some(s@),
                None => None::<Map<Seq<char>, Seq<u8>>>,
            },
            i <= lang_map@.len(),
            items@.len() == lang_items_spec(lang_map@.take(i as int), mod_id@).len(),
            forall|k: int| 0 <= k < items@.len() ==> planned_lang_item_ok(
                #[trigger] items@[k],
                lang_items_spec(lang_map@.take(i as int), mod_id@)[k],
                mod_id@,
                models@,
                local@,
                sh,
                source,
            ),
        decreases lang_map.len() - i,
    {
        proof {
            assert(lang_map@.take(i + 1).drop_last() =~= lang_map@.take(i as int));
            assert(lang_map@.take(i + 1).last() == lang_map@[i as int]);
        }
        let key = lang_map[i].0.as_str();
        if let Some((kind, namespace, name)) = split_lang_key(key) {
            if str_eq(namespace.as_str(), mod_id) && (str_eq(kind.as_str(), "item") || str_eq(kind.as_str(), "block")) {
                let candidates = plan_candidates(name.as_str(), kind.as_str(), models, mod_id, local, shared);
                let ghost w = choose|res: Option<ResolvedView>|
                    #[trigger] item_texture_allows(models@, name@, kind@, mod_id@, res)
                        && candidate_views(candidates@) == candidates_spec(res, local@, sh, mod_id@, kind@ + "/"@ + name@);
                let item = ItemInfo {
                    id: concat3(mod_id, ":", name.as_str()),
                    mod_id: to_owned_string(mod_id),
                    name,
                    display_name: copy_string(&lang_map[i].1),
                    texture_base64: None,
                    source,
                };
                let p = PlannedItem { item, candidates };
                items.push(p);
                proof {
                    let e = lang_items_spec(lang_map@.take(i + 1), mod_id@).last();
                    assert(lang_item(key@, mod_id@) == Some((kind@, name@)));
                    assert(e == (kind@, name@, lang_map@[i as int].1@));
                    let q = items@.last();
                    assert(q.item.id@ == mod_id@ + ":"@ + e.1);
                    assert(q.item.display_name@ == e.2);
                    assert(item_texture_allows(models@, e.1, e.0, mod_id@, w));
                    assert(candidate_views(q.candidates@) == candidates_spec(w, local@, sh, mod_id@, e.0 + "/"@ + e.1));
                    assert(planned_lang_item_ok(items@.last(), e, mod_id@, models@, local@, sh, source));
                }
            }
        }
        i += 1;
    }
    proof { assert(lang_map@.take(lang_map@.len() as int) =~= lang_map@); }
    items
}

// ---------------------------------------------------------------------------
// Items from texture files
// ---------------------------------------------------------------------------

/// The item name of a top-level texture `item/<name>` or `block/<name>`.
pub open spec fn texture_item_name(path: Seq<char>) -> Option<Seq<char>> {
    match first_index_of(path, '/') {
        None => None,
        Some(i) => {
            let prefix = path.take(i);
            let name = path.skip(i + 1);
            if (prefix == "item"@ || prefix == "block"@) && first_index_of(name, '/') is None {
                Some(name)
            } else {
                None
            }
        },
    }
}

/// Names and PNG bytes of the items that top-level textures stand for, in order.
pub open spec fn texture_items_spec(entries: Seq<(String, Vec<u8>)>) -> Seq<(Seq<char>, Seq<u8>)>
    decreases entries.len(),
{
    if entries.len() == 0 {
        Seq::empty()
    } else {
        let before = texture_items_spec(entries.drop_last());
        match texture_item_name(entries.last().0@) {
            Some(name) => before.push((name, entries.last().1@)),
            None => before,
        }
    }
}

/// An item found from its texture file: named by its file name in Title
/// Case, drawn by that texture.
pub open spec fn planned_texture_item_ok(
    p: PlannedItem,
    entry: (Seq<char>, Seq<u8>),
    mod_id: Seq<char>,
    source: ModSource,
) -> bool {
    &&& p.item.id@ == mod_id + ":"@ + entry.0
    &&& p.item.mod_id@ == mod_id
    &&& p.item.name@ == entry.0
    &&& p.item.display_name@ == snake_to_title_spec(entry.0)
    &&& p.item.texture_base64 is None
    &&& p.item.source == source
    &&& candidate_views(p.candidates@) == seq![RenderedView::Png(entry.1)]
}

/// The item name of a texture path, if it is a top-level item or block texture.
fn texture_item(path: &str) -> (r: Option<String>)
    ensures
        match r {
            Some(n) => texture_item_name(path@) == Some(n@),
            None => texture_item_name(path@) is None,
        },
{
    let v = chars_of(path);
    let i = match find_char(&v, '/') {
        Some(i) => i,
        None => return None,
    };
    let prefix = string_from(&v, 0, i);
    let name = string_from(&v, i + 1, v.len());
    proof {
        assert(path@.take(i as int) =~= prefix@);
        assert(path@.skip(i + 1) =~= name@);
    }
    if !(str_eq(prefix.as_str(), "item") || str_eq(prefix.as_str(), "block")) {
        return None;
    }
    let w = chars_of(name.as_str());
    if find_char(&w, '/').is_some() {
        return None;
    }
    Some(name)
}

/// Items found from top-level `item/` and `block/` textures, in entry order.
pub fn discover_texture_items(mod_id: &str, textures: &TextureStore, source: ModSource) -> (r: Vec<PlannedItem>)
    ensures
        r@.len() == texture_items_spec(textures.entries@).len(),
        forall|i: int| 0 <= i < r@.len() ==> planned_texture_item_ok(
            #[trigger] r@[i],
            texture_items_spec(textures.entries@)[i],
            mod_id@,
            source,
        ),
{
    let entries = &textures.entries;
    let mut items: Vec<PlannedItem> = Vec::new();
    let mut i: usize = 0;
    while i < entries.len()
        invariant
            entries == &textures.entries,
            i <= entries@.len(),
            items@.len() == texture_items_spec(entries@.take(i as int)).len(),
            forall|k: int| 0 <= k < items@.len() ==> planned_texture_item_ok(
                #[trigger] items@[k],
                texture_items_spec(entries@.take(i as int))[k],
                mod_id@,
                source,
            ),
        decreases entries.len() - i,
    {
        proof {
            assert(entries@.take(i + 1).drop_last() =~= entries@.take(i as int));
            assert(entries@.take(i + 1).last() == entries@[i as int]);
        }
        if let Some(name) = texture_item(entries[i].0.as_str()) {
            let mut candidates: Vec<RenderedTexture> = Vec::new();
            candidates.push(RenderedTexture::Png(copy_bytes(&entries[i].1)));
            proof { assert(candidate_views(candidates@) =~= seq![RenderedView::Png(entries@[i as int].1@)]); }
            let display_name = snake_to_title(name.as_str());
            let item = ItemInfo {
                id: concat3(mod_id, ":", name.as_str()),
                mod_id: to_owned_string(mod_id),
                name,
                display_name,
                texture_base64: None,
                source,
            };
            items.push(PlannedItem { item, candidates });
        }
        i += 1;
    }
    proof { assert(entries@.take(entries@.len() as int) =~= entries@); }
    items
}

/// The items of a parsed mod jar: those its lang entries name, with
/// textures found through the shared models; or, when it has none, those its
/// top-level textures stand for. The lang map holds each key once.
pub fn resolve_fabric_items(
    parsed: &ParsedFabricJar,
    shared_models: &MultiNamespaceModels,
    shared_textures: &TextureStore,
) -> (r: Vec<PlannedItem>)
    requires
        keys_distinct(parsed.lang_map@),
    ensures
        lang_items_spec(parsed.lang_map@, parsed.mod_id@).len() > 0 ==> {
            let spec = lang_items_spec(parsed.lang_map@, parsed.mod_id@);
            &&& r@.len() == spec.len()
            &&& forall|i: int| 0 <= i < r@.len() ==> planned_lang_item_ok(
                #[trigger] r@[i],
                spec[i],
                parsed.mod_id@,
                shared_models@,
                parsed.textures@,
                Some(shared_textures@),
                ModSource::FabricJar,
            )
        },
        lang_items_spec(parsed.lang_map@, parsed.mod_id@).len() == 0 ==> {
            let spec = texture_items_spec(parsed.textures.entries@);
            &&& r@.len() == spec.len()
            &&& forall|i: int| 0 <= i < r@.len() ==> planned_texture_item_ok(
                #[trigger] r@[i],
                spec[i],
                parsed.mod_id@,
                ModSource::FabricJar,
            )
        },
{
    let items = plan_lang_items(
        parsed.mod_id.as_str(),
        &parsed.lang_map,
        shared_models,
        &parsed.textures,
        Some(shared_textures),
        ModSource::FabricJar,
    );
    if items.len() == 0 {
        discover_texture_items(parsed.mod_id.as_str(), &parsed.textures, ModSource::FabricJar)
    } else {
        items
    }
}

/// The items of the Minecraft client jar: those its lang entries name, with
/// textures found through its models; or, when it has none, those its
/// top-level textures stand for. The lang map holds each key once.
pub fn resolve_vanilla_items(
    lang_map: &Vec<(String, String)>,
    models: &MultiNamespaceModels,
    textures: &TextureStore,
) -> (r: Vec<PlannedItem>)
    requires
        keys_distinct(lang_map@),
    ensures
        lang_items_spec(lang_map@, "minecraft"@).len() > 0 ==> {
            let spec = lang_items_spec(lang_map@, "minecraft"@);
            &&& r@.len() == spec.len()
            &&& forall|i: int| 0 <= i < r@.len() ==> planned_lang_item_ok(
                #[trigger] r@[i],
                spec[i],
                "minecraft"@,
                models@,
                textures@,
                None,
                ModSource::VanillaJar,
            )
        },
        lang_items_spec(lang_map@, "minecraft"@).len() == 0 ==> {
            let spec = texture_items_spec(textures.entries@);
            &&& r@.len() == spec.len()
            &&& forall|i: int| 0 <= i < r@.len() ==> planned_texture_item_ok(
                #[trigger] r@[i],
                spec[i],
                "minecraft"@,
                ModSource::VanillaJar,
            )
        },
{
    let items = plan_lang_items("minecraft", lang_map, models, textures, None, ModSource::VanillaJar);
    if items.len() == 0 {
        discover_texture_items("minecraft", textures, ModSource::VanillaJar)
    } else {
        items
    }
}

// ---------------------------------------------------------------------------
// Finishing items
// ---------------------------------------------------------------------------

/// The PNG bytes of the first candidate that could be drawn: a plain PNG as
/// it is, an isometric block when the caller's rendering of it succeeded.
pub open spec fn chosen_texture(cands: Seq<RenderedView>, renders: Seq<Option<Vec<u8>>>) -> Option<Seq<u8>>
    decreases cands.len(),
{
    if cands.len() == 0 {
        None
    } else {
        match cands[0] {
            RenderedView::Png(b) => Some(b),
            RenderedView::Isometric { .. } => if renders.len() > 0 && renders[0] is Some {
                Some(renders[0]->0@)
            } else {
                chosen_texture(cands.drop_first(), renders.drop_first())
            },
        }
    }
}

/// Every byte vector involved fits in memory, as every vector does.
pub open spec fn render_sizes_ok(cands: Seq<RenderedTexture>, renders: Seq<Option<Vec<u8>>>) -> bool {
    &&& forall|i: int| 0 <= i < cands.len() ==> (#[trigger] cands[i] matches RenderedTexture::Png(b) ==> b@.len() <= isize::MAX)
    &&& forall|i: int| 0 <= i < renders.len() ==> (#[trigger] renders[i] matches Some(b) ==> b@.len() <= isize::MAX)
}

/// An item with its texture set to the data URI of the first candidate that
/// could be drawn (`renders[i]` is the caller's rendering of candidate `i`).
pub fn finish_item(p: PlannedItem, renders: &Vec<Option<Vec<u8>>>) -> (r: ItemInfo)
    requires
        renders@.len() == p.candidates@.len(),
        render_sizes_ok(p.candidates@, renders@),
    ensures
        r.id == p.item.id,
        r.mod_id == p.item.mod_id,
        r.name == p.item.name,
        r.display_name == p.item.display_name,
        r.source == p.item.source,
        match chosen_texture(candidate_views(p.candidates@), renders@) {
            Some(b) => r.texture_base64 matches Some(t) && t@ == png_uri_spec(b),
            None => r.texture_base64 is None,
        },
{
    let PlannedItem { item, candidates } = p;
    let ghost cv = candidate_views(candidates@);
    let mut chosen: Option<String> = None;
    let mut i: usize = 0;
    while i < candidates.len()
        invariant
            cv == candidate_views(candidates@),
            renders@.len() == candidates@.len(),
            render_sizes_ok(candidates@, renders@),
            i <= candidates@.len(),
            chosen is None ==> chosen_texture(cv, renders@) == chosen_texture(cv.skip(i as int), renders@.skip(i as int)),
            chosen matches Some(t) ==> chosen_texture(cv, renders@) matches Some(b) && t@ == png_uri_spec(b),
        decreases candidates.len() - i,
    {
        proof {
            assert(cv.skip(i as int).drop_first() =~= cv.skip(i + 1));
            assert(renders@.skip(i as int).drop_first() =~= renders@.skip(i + 1));
            assert(cv.skip(i as int)[0] == candidates@[i as int]@);
            assert(renders@.skip(i as int)[0] == renders@[i as int]);
        }
        if chosen.is_none() {
            match &candidates[i] {
                RenderedTexture::Png(b) => {
                    chosen = Some(png_data_uri(b));
                },
                RenderedTexture::Isometric { .. } => {
                    match &renders[i] {
                        Some(b) => {
                            chosen = Some(png_data_uri(b));
                        },
                        None => {},
                    }
                },
            }
        }
        i += 1;
    }
    proof {
        if chosen is None {
            assert(cv.skip(i as int) =~= Seq::<RenderedView>::empty());
        }
    }
    ItemInfo {
        id: item.id,
        mod_id: item.mod_id,
        name: item.name,
        display_name: item.display_name,
        texture_base64: chosen,
        source: item.source,
    }
}

/// A mod's textures keyed `<mod_id>:<path>`, as the shared texture store
/// holds them.
pub fn qualify_textures(mod_id: &str, textures: &TextureStore) -> (r: TextureStore)
    ensures
        r.entries@.len() == textures.entries@.len(),
        forall|i: int| 0 <= i < r.entries@.len() ==> {
            &&& (#[trigger] r.entries@[i]).0@ == mod_id@ + ":"@ + textures.entries@[i].0@
            &&& r.entries@[i].1@ == textures.entries@[i].1@
        },
{
    let mut out: Vec<(String, Vec<u8>)> = Vec::new();
    let mut i: usize = 0;
    while i < textures.entries.len()
        invariant
            i <= textures.entries@.len(),
            out@.len() == i,
            forall|k: int| 0 <= k < i ==> {
                &&& (#[trigger] out@[k]).0@ == mod_id@ + ":"@ + textures.entries@[k].0@
                &&& out@[k].1@ == textures.entries@[k].1@
            },
        decreases textures.entries.len() - i,
    {
        let key = concat3(mod_id, ":", textures.entries[i].0.as_str());
        out.push((key, copy_bytes(&textures.entries[i].1)));
        i += 1;
    }
    TextureStore { entries: out }
}

} // verus!
