//! Merging loaded mods and items into one result.
//!
//! Loading walks the modpack (files, jars) outside the library; each step's
//! outcome is handed to a `ModLoader`, which keeps the mods, the items grouped
//! by mod id, the item count and the warnings, applies KubeJS overrides, and
//! orders everything at the end.
use vstd::prelude::*;
use crate::assoc::{assoc_view, find_key, lemma_first_key_index};
use crate::encoding::{png_data_uri, png_uri_spec};
use crate::kubejs::store_sizes_ok;
use crate::sorting::{keyed, sort_by_key, sort_spec, unkeyed, values_of};
use crate::text::{concat2, concat3, lowercase, str_eq, str_lowercase, to_owned_string};
use crate::texture_renderer::TextureStore;
use crate::types::{ItemInfo, LoadedMods, ModInfo, ModSource};

verus! {

broadcast use vstd::seq_lib::group_seq_properties;

/// Items grouped by mod id.
pub type ItemGroups = Seq<(String, Vec<ItemInfo>)>;

/// The number of items over all groups.
pub open spec fn item_count(groups: ItemGroups) -> nat
    decreases groups.len(),
{
    if groups.len() == 0 {
        0
    } else {
        item_count(groups.drop_last()) + groups.last().1@.len()
    }
}

/// Whether a mod with id `id` is among `mods`.
pub open spec fn mod_listed(mods: Seq<ModInfo>, id: Seq<char>) -> bool {
    exists|i: int| 0 <= i < mods.len() && #[trigger] mods[i].id@ == id
}

/// No two groups have the same mod id.
pub open spec fn group_ids_distinct(groups: ItemGroups) -> bool {
    forall|a: int, b: int| 0 <= a < b < groups.len() ==> (#[trigger] groups[a]).0@ != (#[trigger] groups[b]).0@
}

/// Items are grouped by the id of a listed mod, one group per id.
pub open spec fn grouped_by_listed_mods(groups: ItemGroups, mods: Seq<ModInfo>) -> bool {
    &&& group_ids_distinct(groups)
    &&& forall|g: int| 0 <= g < groups.len() ==> mod_listed(mods, (#[trigger] groups[g]).0@)
}

/// A loaded result counts its items (`total_items` is the number of items
/// over all groups) and groups them by the id of a listed mod, one group
/// per id.
pub open spec fn loaded_wf(m: LoadedMods) -> bool {
    &&& m.total_items == item_count(m.items@)
    &&& grouped_by_listed_mods(m.items@, m.mods@)
}

/// Mods, items and warnings gathered so far.
pub struct ModLoader {
    pub mods: Vec<ModInfo>,
    pub items: Vec<(String, Vec<ItemInfo>)>,
    pub total_items: usize,
    pub warnings: Vec<String>,
}

impl ModLoader {
    /// The item count matches the items held, and the items are grouped by
    /// the id of an added mod, one group per id.
    pub open spec fn wf(&self) -> bool {
        &&& self.total_items == item_count(self.items@)
        &&& grouped_by_listed_mods(self.items@, self.mods@)
    }

    /// The items held, by mod id.
    pub open spec fn groups(&self) -> Map<Seq<char>, Seq<ItemInfo>> {
        assoc_view(self.items@)
    }
}

/// The number of items changes by the difference in size of the replaced group.
proof fn lemma_item_count_update(s: ItemGroups, i: int, e: (String, Vec<ItemInfo>))
    requires
        0 <= i < s.len(),
    ensures
        item_count(s.update(i, e)) == item_count(s) - s[i].1@.len() + e.1@.len(),
    decreases s.len(),
{
    if i == s.len() - 1 {
        assert(s.update(i, e).drop_last() =~= s.drop_last());
    } else {
        lemma_item_count_update(s.drop_last(), i, e);
        assert(s.update(i, e).drop_last() =~= s.drop_last().update(i, e));
    }
}

/// The items of group `key` with `extra` appended.
pub open spec fn extended_group(groups: Map<Seq<char>, Seq<ItemInfo>>, key: Seq<char>, extra: Seq<ItemInfo>) -> Seq<ItemInfo> {
    if groups.contains_key(key) {
        groups[key] + extra
    } else {
        extra
    }
}

/// Appends `extra` to group `key`, creating it when absent.
fn extend_group(groups: &mut Vec<(String, Vec<ItemInfo>)>, key: String, extra: Vec<ItemInfo>)
    ensures
        assoc_view(final(groups)@) == assoc_view(old(groups)@).insert(
            key@,
            extended_group(assoc_view(old(groups)@), key@, extra@),
        ),
        item_count(final(groups)@) == item_count(old(groups)@) + extra@.len(),
        final(groups)@.len() >= old(groups)@.len(),
        forall|g: int| 0 <= g < final(groups)@.len() ==> (#[trigger] final(groups)@[g]).0@ == key@
            || (g < old(groups)@.len() && final(groups)@[g].0@ == old(groups)@[g].0@),
        group_ids_distinct(old(groups)@) ==> group_ids_distinct(final(groups)@),
{
    let mut extra = extra;
    match find_key(groups, key.as_str()) {
        Some(i) => {
            proof { lemma_first_key_index(groups@, key@); }
            let (k, mut v) = groups.remove(i);
            let ghost old_v = v@;
            v.append(&mut extra);
            groups.insert(i, (k, v));
            proof {
                let s = old(groups)@;
                assert(groups@ =~= s.update(i as int, groups@[i as int]));
                crate::assoc::lemma_assoc_update(s, i as int, groups@[i as int]);
                lemma_item_count_update(s, i as int, groups@[i as int]);
            }
        },
        None => {
            proof {
                crate::assoc::lemma_assoc_push(groups@, (key, extra));
                assert(extra@ == extended_group(assoc_view(groups@), key@, extra@));
                crate::assoc::lemma_assoc_dom(groups@, key@);
            }
            let ghost before = groups@;
            groups.push((key, extra));
            proof {
                assert(groups@.drop_last() =~= before);
                assert forall|a: int, b: int| 0 <= a < b < groups@.len() && group_ids_distinct(before) implies
                    (#[trigger] groups@[a]).0@ != (#[trigger] groups@[b]).0@ by {
                    if b == before.len() {
                        assert(before[a].0@ != key@);
                    } else {
                        assert(groups@[a] == before[a] && groups@[b] == before[b]);
                    }
                }
            }
        },
    }
}

impl ModLoader {
    /// Nothing loaded yet.
    pub fn new() -> (r: ModLoader)
        ensures
            r.wf(),
            r.mods@.len() == 0,
            r.items@.len() == 0,
            r.total_items == 0,
            r.warnings@.len() == 0,
    {
        ModLoader { mods: Vec::new(), items: Vec::new(), total_items: 0, warnings: Vec::new() }
    }

    /// Records a warning.
    pub fn add_warning(&mut self, warning: String)
        ensures
            final(self).warnings@ == old(self).warnings@.push(warning),
            final(self).mods == old(self).mods,
            final(self).items == old(self).items,
            final(self).total_items == old(self).total_items,
    {
        self.warnings.push(warning);
    }

    /// Adds a loaded mod and its items (appended to the group of its id).
    pub fn add_mod(&mut self, mod_info: ModInfo, items: Vec<ItemInfo>)
        requires
            old(self).wf(),
            old(self).total_items + items@.len() <= usize::MAX,
        ensures
            final(self).wf(),
            final(self).total_items == old(self).total_items + items@.len(),
            final(self).mods@ == old(self).mods@.push(mod_info),
            final(self).groups() == old(self).groups().insert(
                mod_info.id@,
                extended_group(old(self).groups(), mod_info.id@, items@),
            ),
            final(self).warnings == old(self).warnings,
    {
        let mod_id = crate::types::copy_string(&mod_info.id);
        let n = items.len();
        let ghost old_mods = self.mods@;
        let ghost old_items = self.items@;
        self.mods.push(mod_info);
        extend_group(&mut self.items, mod_id, items);
        self.total_items = self.total_items + n;
        proof {
            assert forall|g: int| 0 <= g < self.items@.len() implies mod_listed(self.mods@, (#[trigger] self.items@[g]).0@) by {
                if self.items@[g].0@ == mod_id@ {
                    assert(self.mods@[old_mods.len() as int].id@ == mod_id@);
                } else {
                    assert(mod_listed(old_mods, old_items[g].0@));
                    let i = choose|i: int| 0 <= i < old_mods.len() && #[trigger] old_mods[i].id@ == old_items[g].0@;
                    assert(self.mods@[i] == old_mods[i]);
                }
            }
        }
    }

    /// Whether a mod with id `id` was added.
    pub fn has_mod(&self, id: &str) -> (r: bool)
        ensures
            r == exists|i: int| 0 <= i < self.mods@.len() && (#[trigger] self.mods@[i]).id@ == id@,
    {
        let mut i: usize = 0;
        while i < self.mods.len()
            invariant
                i <= self.mods@.len(),
                forall|j: int| 0 <= j < i ==> (#[trigger] self.mods@[j]).id@ != id@,
            decreases self.mods.len() - i,
        {
            if str_eq(self.mods[i].id.as_str(), id) {
                return true;
            }
            i += 1;
        }
        false
    }
}

// ---------------------------------------------------------------------------
// KubeJS overrides
// ---------------------------------------------------------------------------

/// The texture override of an item: the PNG at `<mod>:item/<name>`, else at
/// `<mod>:block/<name>`, as a data URI.
pub open spec fn override_texture(tex: Map<Seq<char>, Seq<u8>>, item: ItemInfo) -> Option<Seq<char>> {
    let k1 = item.mod_id@ + ":item/"@ + item.name@;
    let k2 = item.mod_id@ + ":block/"@ + item.name@;
    if tex.contains_key(k1) {
        Some(png_uri_spec(tex[k1]))
    } else if tex.contains_key(k2) {
        Some(png_uri_spec(tex[k2]))
    } else {
        None
    }
}

/// The display name override of an item: lang key `item.<mod>.<name>`, else
/// `block.<mod>.<name>`.
pub open spec fn override_name(lang: Map<Seq<char>, Seq<char>>, item: ItemInfo) -> Option<Seq<char>> {
    let k1 = "item."@ + item.mod_id@ + "."@ + item.name@;
    let k2 = "block."@ + item.mod_id@ + "."@ + item.name@;
    if lang.contains_key(k1) {
        Some(lang[k1])
    } else if lang.contains_key(k2) {
        Some(lang[k2])
    } else {
        None
    }
}

/// `after` is `before` with its texture and display name overridden where
/// the overrides have one.
pub open spec fn overridden(before: ItemInfo, after: ItemInfo, tex: Map<Seq<char>, Seq<u8>>, lang: Map<Seq<char>, Seq<char>>) -> bool {
    &&& after.id == before.id
    &&& after.mod_id == before.mod_id
    &&& after.name == before.name
    &&& after.source == before.source
    &&& match override_texture(tex, before) {
        Some(u) => after.texture_base64 matches Some(t) && t@ == u,
        None => after.texture_base64 == before.texture_base64,
    }
    &&& match override_name(lang, before) {
        Some(n) => after.display_name@ == n,
        None => after.display_name == before.display_name,
    }
}

/// Every item of every group overridden, groups and their sizes unchanged.
pub open spec fn groups_overridden(before: ItemGroups, after: ItemGroups, tex: Map<Seq<char>, Seq<u8>>, lang: Map<Seq<char>, Seq<char>>) -> bool {
    &&& after.len() == before.len()
    &&& forall|g: int| 0 <= g < after.len() ==> {
        &&& (#[trigger] after[g]).0 == before[g].0
        &&& after[g].1@.len() == before[g].1@.len()
        &&& forall|i: int| 0 <= i < after[g].1@.len() ==> overridden(
            before[g].1@[i],
            #[trigger] after[g].1@[i],
            tex,
            lang,
        )
    }
}

/// Groups of the same sizes hold the same number of items.
proof fn lemma_item_count_same_sizes(a: ItemGroups, b: ItemGroups)
    requires
        a.len() == b.len(),
        forall|g: int| 0 <= g < a.len() ==> (#[trigger] a[g]).1@.len() == b[g].1@.len(),
    ensures
        item_count(a) == item_count(b),
    decreases a.len(),
{
    if a.len() > 0 {
        lemma_item_count_same_sizes(a.drop_last(), b.drop_last());
        assert(a[a.len() - 1].1@.len() == b[b.len() - 1].1@.len());
    }
}

/// An item with the overrides that apply to it.
fn override_item(item: &ItemInfo, tex: &TextureStore, lang: &Vec<(String, String)>) -> (r: ItemInfo)
    requires
        store_sizes_ok(tex),
    ensures
        overridden(*item, r, tex@, assoc_view(lang@)),
{
    let mut r = item.copy();
    let k1 = concat3(item.mod_id.as_str(), ":item/", item.name.as_str());
    let k2 = concat3(item.mod_id.as_str(), ":block/", item.name.as_str());
    match find_key(&tex.entries, k1.as_str()) {
        Some(i) => {
            r.texture_base64 = Some(png_data_uri(&tex.entries[i].1));
        },
        None => match find_key(&tex.entries, k2.as_str()) {
            Some(i) => {
                r.texture_base64 = Some(png_data_uri(&tex.entries[i].1));
            },
            None => {},
        },
    }
    let mut n1 = concat3("item.", item.mod_id.as_str(), ".");
    n1.append(item.name.as_str());
    let mut n2 = concat3("block.", item.mod_id.as_str(), ".");
    n2.append(item.name.as_str());
    match find_key(lang, n1.as_str()) {
        Some(i) => {
            r.display_name = crate::types::copy_string(&lang[i].1);
        },
        None => match find_key(lang, n2.as_str()) {
            Some(i) => {
                r.display_name = crate::types::copy_string(&lang[i].1);
            },
            None => {},
        },
    }
    r
}

/// Applies texture and display name overrides to every item.
fn apply_overrides(groups: &mut Vec<(String, Vec<ItemInfo>)>, tex: &TextureStore, lang: &Vec<(String, String)>)
    requires
        store_sizes_ok(tex),
    ensures
        groups_overridden(old(groups)@, final(groups)@, tex@, assoc_view(lang@)),
        item_count(final(groups)@) == item_count(old(groups)@),
{
    let ghost start = groups@;
    let ghost lv = assoc_view(lang@);
    let mut g: usize = 0;
    while g < groups.len()
        invariant
            store_sizes_ok(tex),
            lv == assoc_view(lang@),
            groups@.len() == start.len(),
            g <= groups@.len(),
            forall|h: int| g <= h < groups@.len() ==> groups@[h] == start[h],
            forall|h: int| 0 <= h < g ==> {
                &&& (#[trigger] groups@[h]).0 == start[h].0
                &&& groups@[h].1@.len() == start[h].1@.len()
                &&& forall|i: int| 0 <= i < groups@[h].1@.len() ==> overridden(
                    start[h].1@[i],
                    #[trigger] groups@[h].1@[i],
                    tex@,
                    lv,
                )
            },
        decreases groups.len() - g,
    {
        let (k, mut v) = groups.remove(g);
        let ghost vs = v@;
        let mut i: usize = 0;
        while i < v.len()
            invariant
                store_sizes_ok(tex),
                lv == assoc_view(lang@),
                v@.len() == vs.len(),
                i <= v@.len(),
                forall|j: int| i <= j < v@.len() ==> v@[j] == vs[j],
                forall|j: int| 0 <= j < i ==> overridden(vs[j], #[trigger] v@[j], tex@, lv),
            decreases v.len() - i,
        {
            let updated = override_item(&v[i], tex, lang);
            v[i] = updated;
            i += 1;
        }
        groups.insert(g, (k, v));
        g += 1;
    }
    proof {
        assert(groups_overridden(start, groups@, tex@, lv));
        lemma_item_count_same_sizes(start, groups@);
    }
}

impl ModLoader {
    /// Adds the items registered by KubeJS (under a `kubejs` mod, added once)
    /// and applies the KubeJS texture and lang overrides to every item.
    pub fn add_kubejs(&mut self, kjs_items: Vec<ItemInfo>, texture_overrides: &TextureStore, lang_overrides: &Vec<(String, String)>)
        requires
            old(self).wf(),
            old(self).total_items + kjs_items@.len() <= usize::MAX,
            store_sizes_ok(texture_overrides),
        ensures
            final(self).wf(),
            final(self).total_items == old(self).total_items + kjs_items@.len(),
            final(self).warnings == old(self).warnings,
            kjs_items@.len() == 0 ==> final(self).mods == old(self).mods,
            kjs_items@.len() > 0 ==> if exists|i: int|
                0 <= i < old(self).mods@.len() && (#[trigger] old(self).mods@[i]).id@ == "kubejs"@ {
                final(self).mods == old(self).mods
            } else {
                &&& final(self).mods@.len() == old(self).mods@.len() + 1
                &&& final(self).mods@.drop_last() == old(self).mods@
                &&& is_kubejs_mod(final(self).mods@.last())
            },
            exists|merged: ItemGroups| {
                &&& (kjs_items@.len() == 0 ==> merged == old(self).items@)
                &&& (kjs_items@.len() > 0 ==> assoc_view(merged) == assoc_view(old(self).items@).insert(
                    "kubejs"@,
                    extended_group(assoc_view(old(self).items@), "kubejs"@, kjs_items@),
                ))
                &&& #[trigger] groups_overridden(merged, final(self).items@, texture_overrides@, assoc_view(lang_overrides@))
            },
    {
        let ghost old_items = self.items@;
        let ghost old_mods = self.mods@;
        let n = kjs_items.len();
        if n > 0 {
            if !self.has_mod("kubejs") {
                self.mods.push(new_kubejs_mod_info());
            }
            proof {
                reveal_strlit("kubejs");
                assert(mod_listed(self.mods@, "kubejs"@)) by {
                    if !mod_listed(old_mods, "kubejs"@) {
                        assert(self.mods@[old_mods.len() as int].id@ == "kubejs"@);
                    } else {
                        let i = choose|i: int| 0 <= i < old_mods.len() && #[trigger] old_mods[i].id@ == "kubejs"@;
                        assert(self.mods@[i] == old_mods[i]);
                    }
                }
                assert forall|i: int| 0 <= i < old_mods.len() implies #[trigger] self.mods@[i] == old_mods[i] by {}
            }
            self.total_items = self.total_items + n;
            extend_group(&mut self.items, to_owned_string("kubejs"), kjs_items);
            proof {
                assert forall|g: int| 0 <= g < self.items@.len() implies mod_listed(self.mods@, (#[trigger] self.items@[g]).0@) by {
                    if self.items@[g].0@ != "kubejs"@ {
                        assert(mod_listed(old_mods, old_items[g].0@));
                        let i = choose|i: int| 0 <= i < old_mods.len() && #[trigger] old_mods[i].id@ == old_items[g].0@;
                        assert(self.mods@[i] == old_mods[i]);
                    }
                }
            }
        }
        let ghost merged = self.items@;
        apply_overrides(&mut self.items, texture_overrides, lang_overrides);
        proof {
            assert(groups_overridden(merged, self.items@, texture_overrides@, assoc_view(lang_overrides@)));
            assert forall|g: int| 0 <= g < self.items@.len() implies mod_listed(self.mods@, (#[trigger] self.items@[g]).0@) by {
                assert(self.items@[g].0 == merged[g].0);
            }
            assert forall|a: int, b: int| 0 <= a < b < self.items@.len() implies
                (#[trigger] self.items@[a]).0@ != (#[trigger] self.items@[b]).0@ by {
                assert(self.items@[a].0 == merged[a].0);
                assert(self.items@[b].0 == merged[b].0);
            }
        }
    }
}

/// The metadata of the KubeJS pseudo-mod: id `kubejs`, name `KubeJS`,
/// version `custom`.
pub open spec fn is_kubejs_mod(m: ModInfo) -> bool {
    &&& m.id@ == "kubejs"@
    &&& m.name@ == "KubeJS"@
    &&& m.version@ == "custom"@
    &&& m.source == ModSource::KubeJs
}

/// The metadata of the KubeJS pseudo-mod.
fn new_kubejs_mod_info() -> (r: ModInfo)
    ensures
        is_kubejs_mod(r),
{
    ModInfo {
        id: to_owned_string("kubejs"),
        name: to_owned_string("KubeJS"),
        version: to_owned_string("custom"),
        source: ModSource::KubeJs,
    }
}

// ---------------------------------------------------------------------------
// Ordering
// ---------------------------------------------------------------------------

/// Whether a mod is Minecraft itself, which is listed first.
pub open spec fn is_pinned(m: ModInfo) -> bool {
    m.id@ == "minecraft"@
}

/// The mods that are (or are not) pinned, in order.
pub open spec fn filter_pinned(s: Seq<ModInfo>, pinned: bool) -> Seq<ModInfo>
    decreases s.len(),
{
    if s.len() == 0 {
        s
    } else {
        let before = filter_pinned(s.drop_last(), pinned);
        if is_pinned(s.last()) == pinned {
            before.push(s.last())
        } else {
            before
        }
    }
}

/// Mods keyed by their lowercased names.
pub open spec fn mods_by_name(s: Seq<ModInfo>) -> Seq<(Seq<char>, ModInfo)> {
    s.map_values(|m: ModInfo| (str_lowercase(m.name@), m))
}

/// Items keyed by their lowercased display names.
pub open spec fn items_by_name(s: Seq<ItemInfo>) -> Seq<(Seq<char>, ItemInfo)> {
    s.map_values(|it: ItemInfo| (str_lowercase(it.display_name@), it))
}

/// The listing order of mods: Minecraft first, then the others by
/// case-insensitive name, stably.
pub open spec fn mods_order(s: Seq<ModInfo>) -> Seq<ModInfo> {
    filter_pinned(s, true) + unkeyed(sort_spec(mods_by_name(filter_pinned(s, false))))
}

/// The listing order of a mod's items: by case-insensitive display name, stably.
pub open spec fn items_order(s: Seq<ItemInfo>) -> Seq<ItemInfo> {
    unkeyed(sort_spec(items_by_name(s)))
}

/// Mods in listing order (see `mods_order`).
pub fn sort_mods(mods: Vec<ModInfo>) -> (r: Vec<ModInfo>)
    ensures
        r@ == mods_order(mods@),
{
    let ghost orig = mods@;
    let mut rest = mods;
    let mut pinned: Vec<ModInfo> = Vec::new();
    let mut others: Vec<(String, ModInfo)> = Vec::new();
    let n = rest.len();
    let mut i: usize = 0;
    while i < n
        invariant
            n == orig.len(),
            i <= n,
            rest@ == orig.skip(i as int),
            pinned@ == filter_pinned(orig.take(i as int), true),
            keyed(others@) == mods_by_name(filter_pinned(orig.take(i as int), false)),
        decreases n - i,
    {
        let m = rest.remove(0);
        proof {
            assert(orig.skip(i as int).drop_first() =~= orig.skip(i + 1));
            assert(orig.take(i + 1).drop_last() =~= orig.take(i as int));
            assert(orig.take(i + 1).last() == m);
        }
        if str_eq(m.id.as_str(), "minecraft") {
            pinned.push(m);
        } else {
            let key = lowercase(m.name.as_str());
            let ghost before = others@;
            others.push((key, m));
            proof {
                assert(keyed(others@) =~= keyed(before).push((key@, m)));
                assert(mods_by_name(filter_pinned(orig.take(i + 1), false)) =~= mods_by_name(
                    filter_pinned(orig.take(i as int), false),
                ).push((str_lowercase(m.name@), m)));
            }
        }
        i += 1;
    }
    proof { assert(orig.take(n as int) =~= orig); }
    let sorted = sort_by_key(others);
    let mut out = pinned;
    let mut tail = values_of(sorted);
    out.append(&mut tail);
    out
}

/// Items in listing order (see `items_order`).
pub fn sort_items(items: Vec<ItemInfo>) -> (r: Vec<ItemInfo>)
    ensures
        r@ == items_order(items@),
{
    let ghost orig = items@;
    let mut rest = items;
    let mut keyed_items: Vec<(String, ItemInfo)> = Vec::new();
    let n = rest.len();
    let mut i: usize = 0;
    while i < n
        invariant
            n == orig.len(),
            i <= n,
            rest@ == orig.skip(i as int),
            keyed(keyed_items@) == items_by_name(orig.take(i as int)),
        decreases n - i,
    {
        let it = rest.remove(0);
        proof {
            assert(orig.skip(i as int).drop_first() =~= orig.skip(i + 1));
            assert(orig.take(i + 1) =~= orig.take(i as int).push(it));
        }
        let key = lowercase(it.display_name.as_str());
        let ghost before = keyed_items@;
        keyed_items.push((key, it));
        proof {
            assert(keyed(keyed_items@) =~= keyed(before).push((key@, it)));
            assert(items_by_name(orig.take(i + 1)) =~= items_by_name(orig.take(i as int)).push(
                (str_lowercase(it.display_name@), it),
            ));
        }
        i += 1;
    }
    proof { assert(orig.take(n as int) =~= orig); }
    values_of(sort_by_key(keyed_items))
}

/// Each group's items in listing order, groups unchanged otherwise.
pub open spec fn groups_ordered(before: ItemGroups, after: ItemGroups) -> bool {
    &&& after.len() == before.len()
    &&& forall|g: int| 0 <= g < after.len() ==> {
        &&& (#[trigger] after[g]).0 == before[g].0
        &&& after[g].1@ == items_order(before[g].1@)
    }
}

impl ModLoader {
    /// The loaded result: mods in listing order (Minecraft first, then by
    /// name) and each mod's items by display name.
    pub fn finish(self) -> (r: LoadedMods)
        requires
            self.wf(),
        ensures
            loaded_wf(r),
            r.mods@ == mods_order(self.mods@),
            groups_ordered(self.items@, r.items@),
            r.total_items == self.total_items,
            r.warnings == self.warnings,
    {
        let ModLoader { mods, items, total_items, warnings } = self;
        let ghost start = items@;
        let mut groups = items;
        let mut g: usize = 0;
        while g < groups.len()
            invariant
                groups@.len() == start.len(),
                g <= groups@.len(),
                forall|h: int| g <= h < groups@.len() ==> groups@[h] == start[h],
                forall|h: int| 0 <= h < g ==> {
                    &&& (#[trigger] groups@[h]).0 == start[h].0
                    &&& groups@[h].1@ == items_order(start[h].1@)
                },
            decreases groups.len() - g,
        {
            let (k, v) = groups.remove(g);
            let sorted = sort_items(v);
            groups.insert(g, (k, sorted));
            g += 1;
        }
        proof {
            assert forall|h: int| 0 <= h < start.len() implies (#[trigger] start[h]).1@.len() == groups@[h].1@.len() by {
                crate::sorting::lemma_sort_spec(items_by_name(start[h].1@));
            }
            lemma_item_count_same_sizes(start, groups@);
        }
        let ghost old_mods = mods@;
        let sorted_mods = sort_mods(mods);
        proof {
            crate::laws::law_mods_listing(old_mods);
            assert forall|g: int| 0 <= g < groups@.len() implies mod_listed(sorted_mods@, (#[trigger] groups@[g]).0@) by {
                assert(groups@[g].0 == start[g].0);
                assert(mod_listed(old_mods, start[g].0@));
                let i = choose|i: int| 0 <= i < old_mods.len() && #[trigger] old_mods[i].id@ == start[g].0@;
                let m = old_mods[i];
                vstd::seq_lib::to_multiset_contains(old_mods, m);
                vstd::seq_lib::to_multiset_contains(sorted_mods@, m);
                assert(old_mods.contains(m));
                let j = choose|j: int| 0 <= j < sorted_mods@.len() && sorted_mods@[j] == m;
                assert(sorted_mods@[j].id@ == start[g].0@);
            }
            assert forall|a: int, b: int| 0 <= a < b < groups@.len() implies
                (#[trigger] groups@[a]).0@ != (#[trigger] groups@[b]).0@ by {
                assert(groups@[a].0 == start[a].0);
                assert(groups@[b].0 == start[b].0);
            }
        }
        LoadedMods { mods: sorted_mods, items: groups, total_items, warnings }
    }
}

// ---------------------------------------------------------------------------
// Warnings
// ---------------------------------------------------------------------------

/// The warning for a Minecraft jar that failed to load.
pub fn vanilla_error_warning(error: &str) -> (r: String)
    ensures
        r@ == "Vanilla Minecraft loading error: "@ + error@,
{
    concat2("Vanilla Minecraft loading error: ", error)
}

/// The warning for a mods directory that could not be listed.
pub fn read_mods_dir_warning(error: &str) -> (r: String)
    ensures
        r@ == "Failed to read mods directory: "@ + error@,
{
    concat2("Failed to read mods directory: ", error)
}

/// The warning for a jar that failed to load.
pub fn skip_jar_warning(file_name: &str, error: &str) -> (r: String)
    ensures
        r@ == "Skipping "@ + file_name@ + ": "@ + error@,
{
    let mut r = concat3("Skipping ", file_name, ": ");
    r.append(error);
    r
}

/// The warning for a KubeJS directory that failed to load.
pub fn kubejs_error_warning(error: &str) -> (r: String)
    ensures
        r@ == "KubeJS loading error: "@ + error@,
{
    concat2("KubeJS loading error: ", error)
}

} // verus!
