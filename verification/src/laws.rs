//! Properties that hold across the library's functions.
use vstd::prelude::*;
use crate::commands::{normalize_spec, same_loaded, PathComponent};
use crate::mod_loader::{filter_pinned, is_pinned, items_by_name, items_order, mods_by_name, mods_order};
use crate::recipe::{
    entries_by_file_name, pattern_slots, result_count, row_slots, rows_view, shaped_parsed, shaped_readable,
    shapeless_parsed, shapeless_readable, shapeless_slot_ok, slot_ok, ParsedRecipe, RawIngredient, RawShapedRecipe,
    RawShapelessRecipe, RecipeFileEntry, RecipeSlot,
};
use crate::vanilla_json::{
    cell_char, first_pos, key_chars, max_col, max_row, min_col, min_row, pattern_spec, shaped_exported,
    shapeless_exported, slot_at, unique_items, RecipeJson,
};
use crate::assoc::{assoc_view, first_key_index, lemma_first_key_index};
use crate::sorting::{key_le, lemma_sort_spec, sort_spec, unkeyed};
use crate::text::{first_index_of, lemma_first_index_of, lemma_first_index_props, str_lowercase};
use crate::texture_renderer::{lookup_spec, ref_path};
use crate::types::{ItemInfo, LoadedMods, ModInfo};
use crate::model_resolver::{
    block_parent_spec, block_textures_spec, is_block_parent, is_var_ref, max_depth, model_at, norm_model_path,
    qualified, texture_vars_spec, ModelsView, ResolvedView,
};
use crate::fabric::candidates_spec;
use crate::texture_renderer::{render_spec, RenderedView};
use crate::mod_loader::{groups_overridden, ItemGroups};
use crate::encoding::png_uri_spec;
use crate::text::seq_starts_with;

verus! {

broadcast use vstd::seq_lib::group_seq_properties;

/// Mapping a function over two sequences with the same elements gives
/// sequences with the same elements.
pub proof fn lemma_map_values_multiset<A, B>(a: Seq<A>, b: Seq<A>, f: spec_fn(A) -> B)
    requires
        a.to_multiset() == b.to_multiset(),
    ensures
        a.map_values(f).to_multiset() == b.map_values(f).to_multiset(),
    decreases a.len(),
{
    vstd::seq_lib::to_multiset_len(a);
    vstd::seq_lib::to_multiset_len(b);
    if a.len() == 0 {
        assert(b.len() == 0);
        assert(a.map_values(f) =~= b.map_values(f));
    } else {
        let x = a.last();
        assert(a.to_multiset().count(x) > 0);
        assert(b.contains(x));
        let j = choose|j: int| 0 <= j < b.len() && b[j] == x;
        let b2 = b.remove(j);
        assert(a.remove(a.len() - 1) =~= a.drop_last());
        assert(a.drop_last().to_multiset() == b2.to_multiset());
        lemma_map_values_multiset(a.drop_last(), b2, f);
        assert(a.map_values(f) =~= a.drop_last().map_values(f).push(f(x)));
        assert(b.map_values(f) =~= b2.map_values(f).insert(j, f(x)));
        assert(a.drop_last().map_values(f).push(f(x)) =~= a.drop_last().map_values(f).insert(
            a.len() - 1,
            f(x),
        ));
    }
}

/// The pinned and the other mods together are all the mods, each group
/// holding only its kind.
proof fn lemma_filter_pinned(s: Seq<ModInfo>)
    ensures
        filter_pinned(s, true).to_multiset().add(filter_pinned(s, false).to_multiset()) == s.to_multiset(),
        forall|i: int| 0 <= i < filter_pinned(s, true).len() ==> is_pinned(#[trigger] filter_pinned(s, true)[i]),
        forall|i: int| 0 <= i < filter_pinned(s, false).len() ==> !is_pinned(#[trigger] filter_pinned(s, false)[i]),
    decreases s.len(),
{
    if s.len() > 0 {
        lemma_filter_pinned(s.drop_last());
        assert(s =~= s.drop_last().push(s.last()));
        assert(filter_pinned(s, true).to_multiset().add(filter_pinned(s, false).to_multiset()) =~= s.to_multiset());
    }
}

/// Each entry of a sort of keyed entries was one of the entries.
proof fn lemma_sorted_members<T>(k: Seq<(Seq<char>, T)>, i: int)
    requires
        0 <= i < k.len(),
    ensures
        k.contains(sort_spec(k)[i]),
{
    lemma_sort_spec(k);
    let x = sort_spec(k)[i];
    assert(sort_spec(k).to_multiset().count(x) > 0);
}

/// Mods are listed with the same mods as given, Minecraft first, then the
/// others ordered by lowercased name.
pub proof fn law_mods_listing(s: Seq<ModInfo>)
    ensures
        mods_order(s).to_multiset() == s.to_multiset(),
        forall|i: int| 0 <= i < filter_pinned(s, true).len() ==> is_pinned(#[trigger] mods_order(s)[i]),
        forall|i: int| filter_pinned(s, true).len() <= i < s.len() ==> !is_pinned(#[trigger] mods_order(s)[i]),
        forall|i: int, j: int| filter_pinned(s, true).len() <= i < j < s.len() ==> key_le(
            str_lowercase(#[trigger] mods_order(s)[i].name@),
            str_lowercase(#[trigger] mods_order(s)[j].name@),
        ),
{
    let p = filter_pinned(s, true);
    let o = filter_pinned(s, false);
    let k = mods_by_name(o);
    lemma_filter_pinned(s);
    lemma_sort_spec(k);
    let f = |q: (Seq<char>, ModInfo)| q.1;
    lemma_map_values_multiset(sort_spec(k), k, f);
    assert(unkeyed(k) =~= o);
    assert(unkeyed(sort_spec(k)) == sort_spec(k).map_values(f));
    assert(unkeyed(k) == k.map_values(f));
    let r = mods_order(s);
    vstd::seq_lib::lemma_multiset_commutative(p, unkeyed(sort_spec(k)));
    assert(r.to_multiset() =~= s.to_multiset());
    vstd::seq_lib::to_multiset_len(r);
    vstd::seq_lib::to_multiset_len(s);
    assert(r.len() == s.len());
    assert forall|i: int| 0 <= i < sort_spec(k).len() implies (#[trigger] sort_spec(k)[i]).0 == str_lowercase(
        sort_spec(k)[i].1.name@,
    ) && !is_pinned(sort_spec(k)[i].1) by {
        lemma_sorted_members(k, i);
        let m = choose|m: int| 0 <= m < k.len() && k[m] == sort_spec(k)[i];
        assert(k[m] == (str_lowercase(o[m].name@), o[m]));
    }
    assert forall|i: int| p.len() <= i < s.len() implies !is_pinned(#[trigger] r[i]) by {
        assert(r[i] == sort_spec(k)[i - p.len()].1);
    }
    assert forall|i: int, j: int| p.len() <= i < j < s.len() implies key_le(
        str_lowercase(#[trigger] r[i].name@),
        str_lowercase(#[trigger] r[j].name@),
    ) by {
        assert(r[i] == sort_spec(k)[i - p.len()].1);
        assert(r[j] == sort_spec(k)[j - p.len()].1);
        assert(key_le(sort_spec(k)[i - p.len()].0, sort_spec(k)[j - p.len()].0));
    }
    assert forall|i: int| 0 <= i < p.len() implies is_pinned(#[trigger] r[i]) by {
        assert(r[i] == p[i]);
    }
}

/// A mod's items are listed with the same items as given, ordered by
/// lowercased display name.
pub proof fn law_items_listing(s: Seq<ItemInfo>)
    ensures
        items_order(s).to_multiset() == s.to_multiset(),
        forall|i: int, j: int| 0 <= i < j < s.len() ==> key_le(
            str_lowercase(#[trigger] items_order(s)[i].display_name@),
            str_lowercase(#[trigger] items_order(s)[j].display_name@),
        ),
{
    let k = items_by_name(s);
    lemma_sort_spec(k);
    let f = |q: (Seq<char>, ItemInfo)| q.1;
    lemma_map_values_multiset(sort_spec(k), k, f);
    assert(unkeyed(k) =~= s);
    assert(unkeyed(sort_spec(k)) == sort_spec(k).map_values(f));
    assert(unkeyed(k) == k.map_values(f));
    let r = items_order(s);
    assert forall|i: int| 0 <= i < sort_spec(k).len() implies (#[trigger] sort_spec(k)[i]).0 == str_lowercase(
        sort_spec(k)[i].1.display_name@,
    ) by {
        lemma_sorted_members(k, i);
        let m = choose|m: int| 0 <= m < k.len() && k[m] == sort_spec(k)[i];
        assert(k[m] == (str_lowercase(s[m].display_name@), s[m]));
    }
    assert forall|i: int, j: int| 0 <= i < j < s.len() implies key_le(
        str_lowercase(#[trigger] r[i].display_name@),
        str_lowercase(#[trigger] r[j].display_name@),
    ) by {
        assert(key_le(sort_spec(k)[i].0, sort_spec(k)[j].0));
    }
}

/// Recipe files are listed with the same entries as found, ordered by file name.
pub proof fn law_recipe_entries_listing(s: Seq<RecipeFileEntry>)
    ensures
        ({
            let r = unkeyed(sort_spec(entries_by_file_name(s)));
            &&& r.to_multiset() == s.to_multiset()
            &&& forall|i: int, j: int| 0 <= i < j < s.len() ==> key_le(#[trigger] r[i].file_name@, #[trigger] r[j].file_name@)
        }),
{
    let k = entries_by_file_name(s);
    lemma_sort_spec(k);
    let f = |q: (Seq<char>, RecipeFileEntry)| q.1;
    lemma_map_values_multiset(sort_spec(k), k, f);
    assert(k.map_values(f) =~= s);
    let r = unkeyed(sort_spec(k));
    assert(r == sort_spec(k).map_values(f));
    assert forall|i: int| 0 <= i < sort_spec(k).len() implies (#[trigger] sort_spec(k)[i]).0 == sort_spec(
        k,
    )[i].1.file_name@ by {
        lemma_sorted_members(k, i);
        let m = choose|m: int| 0 <= m < k.len() && k[m] == sort_spec(k)[i];
        assert(k[m] == (s[m].file_name@, s[m]));
    }
    assert forall|i: int, j: int| 0 <= i < j < s.len() implies key_le(#[trigger] r[i].file_name@, #[trigger] r[j].file_name@) by {
        assert(key_le(sort_spec(k)[i].0, sort_spec(k)[j].0));
    }
}

/// Whether a component is `.` or `..`.
pub open spec fn is_dot_component(c: PathComponent) -> bool {
    c is CurDir || c is ParentDir
}

/// A normalized path holds no `.` or `..` component, and normalizing it
/// again changes nothing.
pub proof fn law_normalize_path(cs: Seq<PathComponent>)
    ensures
        forall|i: int| 0 <= i < normalize_spec(cs).len() ==> !is_dot_component(#[trigger] normalize_spec(cs)[i]),
        normalize_spec(normalize_spec(cs)) == normalize_spec(cs),
    decreases cs.len(),
{
    if cs.len() > 0 {
        law_normalize_path(cs.drop_last());
        lemma_normalize_plain(normalize_spec(cs));
    }
}

/// Normalizing a path without `.` and `..` leaves it as it is.
proof fn lemma_normalize_plain(cs: Seq<PathComponent>)
    requires
        forall|i: int| 0 <= i < cs.len() ==> !is_dot_component(#[trigger] cs[i]),
    ensures
        normalize_spec(cs) == cs,
    decreases cs.len(),
{
    if cs.len() > 0 {
        lemma_normalize_plain(cs.drop_last());
        assert(!is_dot_component(cs[cs.len() - 1]));
        assert(cs.drop_last().push(cs.last()) =~= cs);
    }
}

/// A texture reference's namespace plays no part in finding its texture:
/// `ns:path` finds what `path` finds.
pub proof fn law_lookup_ignores_namespace(
    store: Map<Seq<char>, Seq<u8>>,
    ref_ns: Seq<char>,
    path: Seq<char>,
    default_ns: Seq<char>,
)
    requires
        first_index_of(ref_ns, ':') is None,
        first_index_of(path, ':') is None,
    ensures
        lookup_spec(store, ref_ns + ":"@ + path, default_ns) == lookup_spec(store, path, default_ns),
{
    let r = ref_ns + ":"@ + path;
    reveal_strlit(":");
    lemma_first_index_props(ref_ns, ':');
    assert(r[ref_ns.len() as int] == ':');
    assert forall|j: int| 0 <= j < ref_ns.len() implies r[j] != ':' by {
        assert(r[j] == ref_ns[j]);
    }
    lemma_first_index_of(r, ':', ref_ns.len() as int);
    assert(r.skip(ref_ns.len() as int + 1) =~= path);
    assert(ref_path(path) == path);
}

/// Reading the loaded result back gives what was stored: a result the
/// state keeps the same as the stored one, and a read the same as what the
/// state keeps, are the same as each other.
pub proof fn law_loaded_read_after_store(stored: LoadedMods, kept: LoadedMods, read: LoadedMods)
    requires
        same_loaded(kept, stored),
        same_loaded(read, kept),
    ensures
        same_loaded(read, stored),
{
    assert forall|g: int| 0 <= g < read.items@.len() implies (#[trigger] read.items@[g]).0 == stored.items@[g].0
        && read.items@[g].1@ == stored.items@[g].1@ by {
        assert(kept.items@[g].0 == stored.items@[g].0);
    }
}

// ---------------------------------------------------------------------------
// Exporting and reading back a shaped recipe
// ---------------------------------------------------------------------------

/// No two slots share a grid position.
pub open spec fn distinct_positions(s: Seq<RecipeSlot>) -> bool {
    forall|i: int, j: int| 0 <= i < j < s.len() ==> (#[trigger] s[i]).row != (#[trigger] s[j]).row || s[i].col != s[j].col
}

/// Each slot lies within the bounds of all slots.
proof fn lemma_bounds(s: Seq<RecipeSlot>, i: int)
    requires
        0 <= i < s.len(),
    ensures
        min_row(s) <= s[i].row <= max_row(s),
        min_col(s) <= s[i].col <= max_col(s),
    decreases s.len(),
{
    if s.len() > 1 && i < s.len() - 1 {
        lemma_bounds(s.drop_last(), i);
    }
}

/// What `slot_at` finds is a slot at that position; `None` means there is none.
proof fn lemma_slot_at(s: Seq<RecipeSlot>, row: int, col: int)
    ensures
        match slot_at(s, row, col) {
            Some(i) => 0 <= i < s.len() && s[i].row == row && s[i].col == col,
            None => forall|j: int| 0 <= j < s.len() ==> !(s[j].row == row && s[j].col == col),
        },
    decreases s.len(),
{
    if s.len() > 0 {
        lemma_slot_at(s.drop_first(), row, col);
        assert forall|j: int| 1 <= j < s.len() implies s[j] == s.drop_first()[j - 1] by {}
    }
}

/// `first_pos` finds an item that occurs.
proof fn lemma_first_pos(u: Seq<Seq<char>>, item: Seq<char>)
    requires
        u.contains(item),
    ensures
        0 <= first_pos(u, item) < u.len(),
        u[first_pos(u, item)] == item,
    decreases u.len(),
{
    if u[0] != item {
        let j = choose|j: int| 0 <= j < u.len() && u[j] == item;
        assert(u.drop_first()[j - 1] == item);
        lemma_first_pos(u.drop_first(), item);
    }
}

/// Key entries as the exported recipe's JSON gives them back: the `k`th key
/// character to the `k`th distinct item.
pub open spec fn exported_keys_read(key: Seq<(String, RawIngredient)>, inputs: Seq<RecipeSlot>) -> bool {
    &&& key.len() == unique_items(inputs).len()
    &&& forall|k: int| 0 <= k < key.len() ==> (#[trigger] key[k]).0@ == seq![key_chars()[k]] && key[k].1@ == unique_items(inputs)[k]
}

/// Looking up a key character in the read-back keys gives its item.
proof fn lemma_key_lookup(key: Seq<(String, RawIngredient)>, inputs: Seq<RecipeSlot>, k: int)
    requires
        exported_keys_read(key, inputs),
        0 <= k < key.len(),
        key.len() <= 9,
    ensures
        assoc_view(key).contains_key(seq![key_chars()[k]]),
        assoc_view(key)[seq![key_chars()[k]]] == unique_items(inputs)[k],
{
    let c = seq![key_chars()[k]];
    lemma_first_key_index(key, c);
    match first_key_index(key, c) {
        Some(f) => {
            assert(key[f].0@ == c);
            assert(seq![key_chars()[f]][0] == key_chars()[f]);
            assert(key_chars()[f] == key_chars()[k]);
            assert(f == k);
        },
        None => {
            assert(key[k].0@ == c);
        },
    }
}

/// The slots of a row: for each non-space character, its position and the
/// item of its key. Every non-space character of `row` must have a key.
proof fn lemma_row_slots_members(row: Seq<char>, r: nat, km: Map<Seq<char>, Seq<char>>)
    requires
        forall|c: int| 0 <= c < row.len() && row[c] != ' ' ==> km.contains_key(seq![#[trigger] row[c]]),
    ensures
        row_slots(row, r, km) is Some,
        forall|t: (nat, nat, Seq<char>)| #[trigger] row_slots(row, r, km)->0.contains(t) <==> (t.0 == r && t.1 < row.len()
            && row[t.1 as int] != ' ' && t.2 == km[seq![row[t.1 as int]]]),
    decreases row.len(),
{
    if row.len() > 0 {
        let init = row.drop_last();
        assert forall|c: int| 0 <= c < init.len() && init[c] != ' ' implies km.contains_key(seq![#[trigger] init[c]]) by {
            assert(init[c] == row[c]);
        }
        lemma_row_slots_members(init, r, km);
        let before = row_slots(init, r, km)->0;
        assert forall|t: (nat, nat, Seq<char>)| #[trigger] row_slots(row, r, km)->0.contains(t) <==> (t.0 == r && t.1 < row.len()
            && row[t.1 as int] != ' ' && t.2 == km[seq![row[t.1 as int]]]) by {
            if t.1 < init.len() {
                assert(init[t.1 as int] == row[t.1 as int]);
            }
            if row.last() != ' ' {
                let n = (row.len() - 1) as nat;
                let last = (r, n, km[seq![row.last()]]);
                assert(row_slots(row, r, km)->0 == before.push(last));
                if row_slots(row, r, km)->0.contains(t) {
                    if t != last {
                        let m = choose|m: int| 0 <= m < before.push(last).len() && before.push(last)[m] == t;
                        assert(before[m] == t);
                        assert(before.contains(t));
                    }
                } else {
                    if t.0 == r && t.1 < row.len() && row[t.1 as int] != ' ' && t.2 == km[seq![row[t.1 as int]]] {
                        if t.1 == n {
                            assert(t == last);
                            assert(before.push(last)[before.len() as int] == t);
                        } else {
                            assert(before.contains(t));
                            let m = choose|m: int| 0 <= m < before.len() && before[m] == t;
                            assert(before.push(last)[m] == t);
                        }
                    }
                }
            }
        }
    }
}

/// The slots of a pattern: for each non-space character, its row, column
/// and the item of its key. Every non-space character must have a key.
proof fn lemma_pattern_slots_members(rows: Seq<Seq<char>>, km: Map<Seq<char>, Seq<char>>)
    requires
        forall|r: int, c: int| 0 <= r < rows.len() && 0 <= c < rows[r].len() && rows[r][c] != ' '
            ==> km.contains_key(seq![#[trigger] rows[r][c]]),
    ensures
        pattern_slots(rows, km) is Some,
        forall|t: (nat, nat, Seq<char>)| #[trigger] pattern_slots(rows, km)->0.contains(t) <==> (t.0 < rows.len()
            && t.1 < rows[t.0 as int].len() && rows[t.0 as int][t.1 as int] != ' '
            && t.2 == km[seq![rows[t.0 as int][t.1 as int]]]),
    decreases rows.len(),
{
    if rows.len() > 0 {
        let init = rows.drop_last();
        let n = (rows.len() - 1) as nat;
        assert forall|r: int, c: int| 0 <= r < init.len() && 0 <= c < init[r].len() && init[r][c] != ' '
            implies km.contains_key(seq![#[trigger] init[r][c]]) by {
            assert(init[r] == rows[r]);
        }
        lemma_pattern_slots_members(init, km);
        let last = rows.last();
        assert forall|c: int| 0 <= c < last.len() && last[c] != ' ' implies km.contains_key(seq![#[trigger] last[c]]) by {
            assert(rows[n as int][c] == last[c]);
        }
        lemma_row_slots_members(last, n, km);
        let a = pattern_slots(init, km)->0;
        let b = row_slots(last, n, km)->0;
        assert(pattern_slots(rows, km)->0 == a + b);
        assert forall|t: (nat, nat, Seq<char>)| #[trigger] pattern_slots(rows, km)->0.contains(t) <==> (t.0 < rows.len()
            && t.1 < rows[t.0 as int].len() && rows[t.0 as int][t.1 as int] != ' '
            && t.2 == km[seq![rows[t.0 as int][t.1 as int]]]) by {
            if t.0 < init.len() {
                assert(init[t.0 as int] == rows[t.0 as int]);
            }
            if (a + b).contains(t) {
                let m = choose|m: int| 0 <= m < (a + b).len() && (a + b)[m] == t;
                if m < a.len() {
                    assert(a[m] == t);
                    assert(a.contains(t));
                } else {
                    assert(b[m - a.len()] == t);
                    assert(b.contains(t));
                }
            } else {
                if a.contains(t) {
                    let m = choose|m: int| 0 <= m < a.len() && a[m] == t;
                    assert((a + b)[m] == t);
                }
                if b.contains(t) {
                    let m = choose|m: int| 0 <= m < b.len() && b[m] == t;
                    assert((a + b)[a.len() + m] == t);
                }
            }
        }
    }
}

/// The slots that the exported pattern and keys give back are the exported
/// slots, moved so that their bounding box starts at row 0 and column 0.
proof fn lemma_shaped_read_members(
    inputs: Seq<RecipeSlot>,
    key: Seq<(String, RawIngredient)>,
)
    requires
        inputs.len() > 0,
        unique_items(inputs).len() <= 9,
        distinct_positions(inputs),
        exported_keys_read(key, inputs),
    ensures
        ({
            let read = pattern_slots(pattern_spec(inputs), assoc_view(key));
            &&& read is Some
            &&& forall|t: (nat, nat, Seq<char>)| #[trigger] read->0.contains(t) <==> exists|i: int|
                0 <= i < inputs.len() && t == (
                    (inputs[i].row - min_row(inputs)) as nat,
                    (inputs[i].col - min_col(inputs)) as nat,
                    #[trigger] inputs[i].item_id@,
                )
        }),
{
    let rows = pattern_spec(inputs);
    let km = assoc_view(key);
    let u = unique_items(inputs);
    let r0 = min_row(inputs);
    let c0 = min_col(inputs);
    // Every non-space cell is the key character of an item of a slot there.
    assert forall|r: int, c: int| 0 <= r < rows.len() && 0 <= c < rows[r].len() && rows[r][c] != ' '
        implies km.contains_key(seq![#[trigger] rows[r][c]]) && (slot_at(inputs, r + r0, c + c0) matches Some(i)
            && km[seq![rows[r][c]]] == inputs[i].item_id@) by {
        assert(rows[r][c] == cell_char(inputs, r + r0, c + c0));
        lemma_slot_at(inputs, r + r0, c + c0);
        let i = slot_at(inputs, r + r0, c + c0)->0;
        crate::vanilla_json::lemma_unique_contains(inputs, i);
        lemma_first_pos(u, inputs[i].item_id@);
        let k = first_pos(u, inputs[i].item_id@);
        lemma_key_lookup(key, inputs, k);
    }
    lemma_pattern_slots_members(rows, km);
    let read = pattern_slots(rows, km)->0;
    assert forall|t: (nat, nat, Seq<char>)| #[trigger] read.contains(t) <==> exists|i: int|
        0 <= i < inputs.len() && t == (
            (inputs[i].row - r0) as nat,
            (inputs[i].col - c0) as nat,
            #[trigger] inputs[i].item_id@,
        ) by {
        if read.contains(t) {
            let r = t.0 as int;
            let c = t.1 as int;
            let i = slot_at(inputs, r + r0, c + c0)->0;
            lemma_slot_at(inputs, r + r0, c + c0);
            assert(t == ((inputs[i].row - r0) as nat, (inputs[i].col - c0) as nat, inputs[i].item_id@));
        }
        if exists|i: int| 0 <= i < inputs.len() && t == (
            (inputs[i].row - r0) as nat,
            (inputs[i].col - c0) as nat,
            #[trigger] inputs[i].item_id@,
        ) {
            let i = choose|i: int| 0 <= i < inputs.len() && t == (
                (inputs[i].row - r0) as nat,
                (inputs[i].col - c0) as nat,
                #[trigger] inputs[i].item_id@,
            );
            lemma_bounds(inputs, i);
            let r = inputs[i].row - r0;
            let c = inputs[i].col - c0;
            lemma_slot_at(inputs, r + r0, c + c0);
            let f = slot_at(inputs, r + r0, c + c0)->0;
            if f != i {
                if f < i {
                    assert(inputs[f].row != inputs[i].row || inputs[f].col != inputs[i].col);
                } else {
                    assert(inputs[i].row != inputs[f].row || inputs[i].col != inputs[f].col);
                }
            }
            crate::vanilla_json::lemma_unique_contains(inputs, i);
            lemma_first_pos(u, inputs[i].item_id@);
            let k = first_pos(u, inputs[i].item_id@);
            assert(rows[r][c] == cell_char(inputs, r + r0, c + c0));
            assert(rows[r][c] == key_chars()[k]);
            assert(key_chars()[k] != ' ');
        }
    }
}

/// The slots of a pattern row lie in that row, with strictly increasing
/// columns within it.
proof fn lemma_row_slots_order(row: Seq<char>, r: nat, km: Map<Seq<char>, Seq<char>>)
    requires
        row_slots(row, r, km) is Some,
    ensures
        forall|k: int| 0 <= k < row_slots(row, r, km)->0.len() ==> (#[trigger] row_slots(row, r, km)->0[k]).0 == r
            && row_slots(row, r, km)->0[k].1 < row.len(),
        forall|a: int, b: int| 0 <= a < b < row_slots(row, r, km)->0.len() ==> (#[trigger] row_slots(row, r, km)->0[a]).1
            < (#[trigger] row_slots(row, r, km)->0[b]).1,
    decreases row.len(),
{
    if row.len() > 0 {
        lemma_row_slots_order(row.drop_last(), r, km);
    }
}

/// Slot `a` comes before slot `b` in row-major order.
pub open spec fn row_major_before(a: (nat, nat, Seq<char>), b: (nat, nat, Seq<char>)) -> bool {
    a.0 < b.0 || (a.0 == b.0 && a.1 < b.1)
}

/// The slots of a pattern come row by row, left to right.
proof fn lemma_pattern_slots_order(rows: Seq<Seq<char>>, km: Map<Seq<char>, Seq<char>>)
    requires
        pattern_slots(rows, km) is Some,
    ensures
        forall|k: int| 0 <= k < pattern_slots(rows, km)->0.len() ==> (#[trigger] pattern_slots(rows, km)->0[k]).0 < rows.len(),
        forall|a: int, b: int| 0 <= a < b < pattern_slots(rows, km)->0.len() ==> row_major_before(
            #[trigger] pattern_slots(rows, km)->0[a],
            #[trigger] pattern_slots(rows, km)->0[b],
        ),
    decreases rows.len(),
{
    if rows.len() > 0 {
        let n = (rows.len() - 1) as nat;
        lemma_pattern_slots_order(rows.drop_last(), km);
        lemma_row_slots_order(rows.last(), n, km);
        let a_s = pattern_slots(rows.drop_last(), km)->0;
        let b_s = row_slots(rows.last(), n, km)->0;
        let s = pattern_slots(rows, km)->0;
        assert(s == a_s + b_s);
        assert forall|k: int| 0 <= k < s.len() implies (#[trigger] s[k]).0 < rows.len() by {
            if k < a_s.len() {
                assert(s[k] == a_s[k]);
            } else {
                assert(s[k] == b_s[k - a_s.len()]);
            }
        }
        assert forall|a: int, b: int| 0 <= a < b < s.len() implies row_major_before(#[trigger] s[a], #[trigger] s[b]) by {
            if b < a_s.len() {
                assert(s[a] == a_s[a] && s[b] == a_s[b]);
            } else if a < a_s.len() {
                assert(s[a] == a_s[a] && s[b] == b_s[b - a_s.len()]);
            } else {
                assert(s[a] == b_s[a - a_s.len()] && s[b] == b_s[b - a_s.len()]);
            }
        }
    }
}

/// Whether `raw` is what a shaped recipe's JSON gives back when read as a
/// recipe file: the same pattern rows, each key character with its item,
/// and the same result.
pub open spec fn shaped_json_read(exported: RecipeJson, raw: RawShapedRecipe) -> bool {
    exported matches RecipeJson::Shaped { pattern, key, result } && {
        &&& rows_view(raw.pattern@) == rows_view(pattern@)
        &&& raw.key@.len() == key@.len()
        &&& forall|k: int| 0 <= k < key@.len() ==> (#[trigger] raw.key@[k]).0@ == seq![key@[k].0]
            && raw.key@[k].1@ == key@[k].1@
        &&& raw.result.item matches Some(item) && item@ == result.item@
        &&& raw.result.count == result.count
    }
}

/// Whether slot `s` is input slot `i` moved so that the bounding box of the
/// inputs starts at row 0 and column 0, with its input slot id.
pub open spec fn moved_slot(s: RecipeSlot, inputs: Seq<RecipeSlot>, i: int) -> bool {
    slot_ok(
        s,
        (inputs[i].row - min_row(inputs)) as nat,
        (inputs[i].col - min_col(inputs)) as nat,
        inputs[i].item_id@,
    )
}

/// Whether slot `s` is one of the moved input slots.
pub open spec fn from_input(s: RecipeSlot, inputs: Seq<RecipeSlot>) -> bool {
    exists|i: int| 0 <= i < inputs.len() && #[trigger] moved_slot(s, inputs, i)
}

/// Whether input slot `i`, moved, is among `slots`.
pub open spec fn input_kept(slots: Seq<RecipeSlot>, inputs: Seq<RecipeSlot>, i: int) -> bool {
    exists|k: int| 0 <= k < slots.len() && #[trigger] moved_slot(slots[k], inputs, i)
}

/// Whether `slots` are the slots of `inputs` moved so that their bounding
/// box starts at row 0 and column 0, in row-major order, each with its input
/// slot id.
pub open spec fn moved_slots(slots: Seq<RecipeSlot>, inputs: Seq<RecipeSlot>) -> bool {
    &&& forall|a: int, b: int| 0 <= a < b < slots.len() ==> {
        ||| (#[trigger] slots[a]).row < (#[trigger] slots[b]).row
        ||| slots[a].row == slots[b].row && slots[a].col < slots[b].col
    }
    &&& forall|k: int| 0 <= k < slots.len() ==> #[trigger] from_input(slots[k], inputs)
    &&& forall|i: int| 0 <= i < inputs.len() ==> #[trigger] input_kept(slots, inputs, i)
}

/// What the read-back file of an exported shaped recipe holds: the exported
/// pattern, the keys in order, the output item and the count.
proof fn lemma_shaped_file(item: Seq<char>, count: u32, inputs: Seq<RecipeSlot>, exported: RecipeJson, raw: RawShapedRecipe)
    requires
        shaped_exported(exported, item, count, inputs),
        shaped_json_read(exported, raw),
    ensures
        unique_items(inputs).len() <= 9,
        rows_view(raw.pattern@) == pattern_spec(inputs),
        exported_keys_read(raw.key@, inputs),
        raw.result.item matches Some(i) && i@ == item,
        result_count(raw.result.count) == (if count >= 1 { count } else { 1 }),
{
    let key = exported->key;
    assert(key@.len() == unique_items(inputs).len());
    assert forall|k: int| 0 <= k < raw.key@.len() implies (#[trigger] raw.key@[k]).0@ == seq![key_chars()[k]]
        && raw.key@[k].1@ == unique_items(inputs)[k] by {
        assert(key@[k].0 == key_chars()[k]);
    }
}

/// The read-back slots are the moved input slots.
pub open spec fn read_is_moved(read: Seq<(nat, nat, Seq<char>)>, inputs: Seq<RecipeSlot>) -> bool {
    forall|t: (nat, nat, Seq<char>)| #[trigger] read.contains(t) <==> exists|i: int|
        0 <= i < inputs.len() && t == (
            (inputs[i].row - min_row(inputs)) as nat,
            (inputs[i].col - min_col(inputs)) as nat,
            #[trigger] inputs[i].item_id@,
        )
}

/// Slots that match row-major read-back slots come in row-major order.
proof fn lemma_moved_order(read: Seq<(nat, nat, Seq<char>)>, slots: Seq<RecipeSlot>)
    requires
        forall|a: int, b: int| 0 <= a < b < read.len() ==> row_major_before(#[trigger] read[a], #[trigger] read[b]),
        crate::recipe::slots_match(slots, read),
    ensures
        forall|a: int, b: int| 0 <= a < b < slots.len() ==> {
            ||| (#[trigger] slots[a]).row < (#[trigger] slots[b]).row
            ||| slots[a].row == slots[b].row && slots[a].col < slots[b].col
        },
{
    assert forall|a: int, b: int| 0 <= a < b < slots.len() implies {
        ||| (#[trigger] slots[a]).row < (#[trigger] slots[b]).row
        ||| slots[a].row == slots[b].row && slots[a].col < slots[b].col
    } by {
        assert(slot_ok(slots[a], read[a].0, read[a].1, read[a].2));
        assert(slot_ok(slots[b], read[b].0, read[b].1, read[b].2));
        assert(row_major_before(read[a], read[b]));
    }
}

/// Each slot that matches the read-back slots is a moved input slot.
proof fn lemma_moved_from(inputs: Seq<RecipeSlot>, read: Seq<(nat, nat, Seq<char>)>, slots: Seq<RecipeSlot>)
    requires
        read_is_moved(read, inputs),
        crate::recipe::slots_match(slots, read),
    ensures
        forall|k: int| 0 <= k < slots.len() ==> #[trigger] from_input(slots[k], inputs),
{
    assert forall|k: int| 0 <= k < slots.len() implies #[trigger] from_input(slots[k], inputs) by {
        assert(slot_ok(slots[k], read[k].0, read[k].1, read[k].2));
        assert(read.contains(read[k]));
        let i = choose|i: int| 0 <= i < inputs.len() && read[k] == (
            (inputs[i].row - min_row(inputs)) as nat,
            (inputs[i].col - min_col(inputs)) as nat,
            #[trigger] inputs[i].item_id@,
        );
        assert(moved_slot(slots[k], inputs, i));
    }
}

/// Each moved input slot is among the slots that match the read-back slots.
proof fn lemma_moved_to(inputs: Seq<RecipeSlot>, read: Seq<(nat, nat, Seq<char>)>, slots: Seq<RecipeSlot>)
    requires
        read_is_moved(read, inputs),
        crate::recipe::slots_match(slots, read),
    ensures
        forall|i: int| 0 <= i < inputs.len() ==> #[trigger] input_kept(slots, inputs, i),
{
    assert forall|i: int| 0 <= i < inputs.len() implies #[trigger] input_kept(slots, inputs, i) by {
        let t = ((inputs[i].row - min_row(inputs)) as nat, (inputs[i].col - min_col(inputs)) as nat, inputs[i].item_id@);
        assert(read.contains(t));
        let k = choose|k: int| 0 <= k < read.len() && read[k] == t;
        assert(slot_ok(slots[k], read[k].0, read[k].1, read[k].2));
        assert(moved_slot(slots[k], inputs, i));
    }
}

/// Reading back an exported shaped recipe gives a recipe, and every recipe
/// read from it holds the exported slots, moved so that their bounding box
/// starts at row 0 and column 0, in row-major order, each with its input
/// slot id, along with the output item and a count of at least 1. Two slots
/// at one grid position are left out: the export writes only the first.
pub proof fn law_shaped_round_trip(
    item: Seq<char>,
    count: u32,
    inputs: Seq<RecipeSlot>,
    exported: RecipeJson,
    raw: RawShapedRecipe,
)
    requires
        inputs.len() > 0,
        distinct_positions(inputs),
        shaped_exported(exported, item, count, inputs),
        shaped_json_read(exported, raw),
    ensures
        shaped_readable(raw),
        forall|p: ParsedRecipe| #[trigger] shaped_parsed(raw, p) ==> {
            &&& p.recipe_type@ == "shaped"@
            &&& p.output_item_id@ == item
            &&& p.count == (if count >= 1 { count } else { 1 })
            &&& moved_slots(p.inputs@, inputs)
        },
{
    lemma_shaped_file(item, count, inputs, exported, raw);
    lemma_shaped_read_members(inputs, raw.key@);
    let rows = rows_view(raw.pattern@);
    let km = assoc_view(raw.key@);
    lemma_pattern_slots_order(rows, km);
    let read = pattern_slots(rows, km)->0;
    assert(read.len() > 0) by {
        let t = ((inputs[0].row - min_row(inputs)) as nat, (inputs[0].col - min_col(inputs)) as nat, inputs[0].item_id@);
        assert(read.contains(t));
    }
    assert forall|p: ParsedRecipe| #[trigger] shaped_parsed(raw, p) implies {
        &&& p.recipe_type@ == "shaped"@
        &&& p.output_item_id@ == item
        &&& p.count == (if count >= 1 { count } else { 1 })
        &&& moved_slots(p.inputs@, inputs)
    } by {
        lemma_moved_order(read, p.inputs@);
        lemma_moved_from(inputs, read, p.inputs@);
        lemma_moved_to(inputs, read, p.inputs@);
    }
}

/// Whether `raw` is what a shapeless recipe's JSON gives back when read as a
/// recipe file: the same ingredient items, in order, and the same result.
pub open spec fn shapeless_json_read(exported: RecipeJson, raw: RawShapelessRecipe) -> bool {
    exported matches RecipeJson::Shapeless { ingredients, result } && {
        &&& raw.ingredients@.len() == ingredients@.len()
        &&& forall|i: int| 0 <= i < ingredients@.len() ==> (#[trigger] raw.ingredients@[i])@ == ingredients@[i]@
        &&& raw.result.item matches Some(item) && item@ == result.item@
        &&& raw.result.count == result.count
    }
}

/// Reading back an exported shapeless recipe gives a recipe, and every recipe
/// read from it holds the exported items in order, laid out left to right
/// and top to bottom in a 3x3 grid, along with the output item and a count
/// of at least 1.
pub proof fn law_shapeless_round_trip(
    item: Seq<char>,
    count: u32,
    inputs: Seq<RecipeSlot>,
    exported: RecipeJson,
    raw: RawShapelessRecipe,
)
    requires
        inputs.len() > 0,
        shapeless_exported(exported, item, count, inputs),
        shapeless_json_read(exported, raw),
    ensures
        shapeless_readable(raw),
        forall|p: ParsedRecipe| #[trigger] shapeless_parsed(raw, p) ==> {
            &&& p.recipe_type@ == "shapeless"@
            &&& p.output_item_id@ == item
            &&& p.count == (if count >= 1 { count } else { 1 })
            &&& p.inputs@.len() == inputs.len()
            &&& forall|i: int| 0 <= i < inputs.len() ==> shapeless_slot_ok(
                #[trigger] p.inputs@[i],
                i as nat,
                inputs[i].item_id@,
            )
        },
{
    assert forall|p: ParsedRecipe| #[trigger] shapeless_parsed(raw, p) implies {
        &&& p.recipe_type@ == "shapeless"@
        &&& p.output_item_id@ == item
        &&& p.count == (if count >= 1 { count } else { 1 })
        &&& p.inputs@.len() == inputs.len()
        &&& forall|i: int| 0 <= i < inputs.len() ==> shapeless_slot_ok(
            #[trigger] p.inputs@[i],
            i as nat,
            inputs[i].item_id@,
        )
    } by {
        assert forall|i: int| 0 <= i < inputs.len() implies shapeless_slot_ok(
            #[trigger] p.inputs@[i],
            i as nat,
            inputs[i].item_id@,
        ) by {
            assert(shapeless_slot_ok(p.inputs@[i], i as nat, raw.ingredients@[i]@));
        }
    }
}

// ---------------------------------------------------------------------------
// Item icons
// ---------------------------------------------------------------------------

/// A model's own texture variable wins over its parents': when the model at
/// `path` in `ns` (within the depth bound) sets variable `k` to a plain
/// texture, its resolved variables map `k` to that texture, whatever its
/// parent chain sets `k` to.
pub proof fn law_own_texture_wins(models: ModelsView, path: Seq<char>, ns: Seq<char>, depth: nat, k: Seq<char>)
    requires
        depth <= max_depth(),
        model_at(models, ns, path) matches Some(m) && m.textures matches Some(t) && t.contains_key(k)
            && !is_var_ref(t[k]),
    ensures
        texture_vars_spec(models, path, ns, depth).contains_key(k),
        texture_vars_spec(models, path, ns, depth)[k] == model_at(models, ns, path)->0.textures->0[k],
{
    let t = model_at(models, ns, path)->0.textures->0;
    let r = texture_vars_spec(models, path, ns, depth);
    let v = t[k];
    assert(crate::model_resolver::follow_ref(r, v, 0) == v);
}

/// A `block/cube` icon's top face is the `up` texture when the variables
/// give a non-empty one, and the `particle` texture when they give no `up`.
pub proof fn law_cube_top_face(m: Map<Seq<char>, Seq<char>>)
    ensures
        m.contains_key("up"@) && m["up"@].len() > 0 ==> (block_textures_spec("block/cube"@, m) matches Some(
            ResolvedView::Block { top, .. },
        ) && top == m["up"@]),
        !m.contains_key("up"@) && m.contains_key("particle"@) && m["particle"@].len() > 0 ==> (block_textures_spec(
            "block/cube"@,
            m,
        ) matches Some(ResolvedView::Block { top, .. }) && top == m["particle"@]),
{
    reveal_strlit("block/cube");
    reveal_strlit("block/cube_all");
    reveal_strlit("block/cube_column");
    reveal_strlit("block/cube_column_horizontal");
    reveal_strlit("block/cube_bottom_top");
    assert("block/cube"@.len() != "block/cube_all"@.len());
    assert("block/cube"@.len() != "block/cube_column"@.len());
    assert("block/cube"@.len() != "block/cube_column_horizontal"@.len());
    assert("block/cube"@.len() != "block/cube_bottom_top"@.len());
}

/// A texture that the shared textures can draw is always among an item's
/// candidates, and comes first when the mod's own textures cannot draw it.
pub proof fn law_shared_textures_tried(
    t: ResolvedView,
    local: Map<Seq<char>, Seq<u8>>,
    shared: Map<Seq<char>, Seq<u8>>,
    ns: Seq<char>,
    fallback_key: Seq<char>,
    x: RenderedView,
)
    requires
        render_spec(t, shared, ns) == Some(x),
    ensures
        candidates_spec(Some(t), local, Some(shared), ns, fallback_key).contains(x),
        render_spec(t, local, ns) is None ==> candidates_spec(Some(t), local, Some(shared), ns, fallback_key).len() > 0
            && candidates_spec(Some(t), local, Some(shared), ns, fallback_key)[0] == x,
{
    let c = candidates_spec(Some(t), local, Some(shared), ns, fallback_key);
    let from_local = crate::fabric::opt_seq(render_spec(t, local, ns));
    assert(c[from_local.len() as int] == x);
}

/// KubeJS texture overrides replace an item's texture, whatever texture it
/// had: after overriding, an item whose `<mod>:item/<name>` texture is
/// among the overrides shows it as a PNG data URI; failing that, its
/// `<mod>:block/<name>` texture; with neither, its texture stays as it was.
pub proof fn law_kubejs_texture_override(
    before: ItemGroups,
    after: ItemGroups,
    tex: Map<Seq<char>, Seq<u8>>,
    lang: Map<Seq<char>, Seq<char>>,
    g: int,
    i: int,
)
    requires
        groups_overridden(before, after, tex, lang),
        0 <= g < before.len(),
        0 <= i < before[g].1@.len(),
    ensures
        ({
            let it = before[g].1@[i];
            let k1 = it.mod_id@ + ":item/"@ + it.name@;
            let k2 = it.mod_id@ + ":block/"@ + it.name@;
            let out = after[g].1@[i].texture_base64;
            &&& tex.contains_key(k1) ==> (out matches Some(u) && u@ == png_uri_spec(tex[k1]))
            &&& !tex.contains_key(k1) && tex.contains_key(k2) ==> (out matches Some(u) && u@ == png_uri_spec(tex[k2]))
            &&& !tex.contains_key(k1) && !tex.contains_key(k2) ==> out == it.texture_base64
        }),
{
    assert(after[g].0 == before[g].0);
    assert(crate::mod_loader::overridden(before[g].1@[i], after[g].1@[i], tex, lang));
}

/// The well-known block parents, as a block parent is reported: without a
/// `minecraft:` prefix.
pub open spec fn known_block_kind(p: Seq<char>) -> bool {
    ||| p == "block/cube_all"@
    ||| p == "block/cube_column"@
    ||| p == "block/cube_column_horizontal"@
    ||| p == "block/cube_bottom_top"@
    ||| p == "block/cube"@
    ||| p == "block/orientable"@
    ||| p == "block/orientable_vertical"@
}

/// No character of `s` is a `:`.
pub open spec fn no_colon(s: Seq<char>) -> bool {
    forall|i: int| 0 <= i < s.len() ==> s[i] != ':'
}

/// The block parent names and `minecraft` hold no `:`.
proof fn lemma_no_colon_literal(s: Seq<char>)
    requires
        known_block_kind(s) || s == "minecraft"@,
    ensures
        no_colon(s),
{
    reveal_strlit("block/cube_all");
    reveal_strlit("minecraft:block/cube_all");
    reveal_strlit("block/cube_column");
    reveal_strlit("minecraft:block/cube_column");
    reveal_strlit("block/cube_column_horizontal");
    reveal_strlit("minecraft:block/cube_column_horizontal");
    reveal_strlit("block/cube_bottom_top");
    reveal_strlit("minecraft:block/cube_bottom_top");
    reveal_strlit("block/cube");
    reveal_strlit("minecraft:block/cube");
    reveal_strlit("block/orientable");
    reveal_strlit("minecraft:block/orientable");
    reveal_strlit("block/orientable_vertical");
    reveal_strlit("minecraft:block/orientable_vertical");
    reveal_strlit("minecraft");
}

/// Two ways of writing a string as `a:b`, where the second's parts hold no
/// `:`, split it at the same place.
proof fn lemma_colon_split(a: Seq<char>, b: Seq<char>, c: Seq<char>, d: Seq<char>)
    requires
        a + ":"@ + b == c + ":"@ + d,
        no_colon(c),
        no_colon(d),
    ensures
        a == c,
        b == d,
{
    reveal_strlit(":");
    let q = c + ":"@ + d;
    assert((a + ":"@ + b)[a.len() as int] == ':');
    assert(q.len() == a.len() + 1 + b.len());
    if a.len() < c.len() {
        assert(q[a.len() as int] == c[a.len() as int]);
    } else if a.len() > c.len() {
        assert(q[a.len() as int] == d[a.len() - c.len() - 1]);
    }
    assert(a =~= q.take(c.len() as int));
    assert(c =~= q.take(c.len() as int));
    assert(b =~= q.skip(c.len() as int + 1));
    assert(d =~= q.skip(c.len() as int + 1));
}

/// A well-known block parent, with or without its `minecraft:` prefix,
/// becomes an unprefixed one when the prefix is removed.
proof fn lemma_norm_block_parent(x: Seq<char>)
    requires
        is_block_parent(x),
    ensures
        known_block_kind(norm_model_path(x)),
{
    reveal_strlit("block/cube_all");
    reveal_strlit("minecraft:block/cube_all");
    reveal_strlit("block/cube_column");
    reveal_strlit("minecraft:block/cube_column");
    reveal_strlit("block/cube_column_horizontal");
    reveal_strlit("minecraft:block/cube_column_horizontal");
    reveal_strlit("block/cube_bottom_top");
    reveal_strlit("minecraft:block/cube_bottom_top");
    reveal_strlit("block/cube");
    reveal_strlit("minecraft:block/cube");
    reveal_strlit("block/orientable");
    reveal_strlit("minecraft:block/orientable");
    reveal_strlit("block/orientable_vertical");
    reveal_strlit("minecraft:block/orientable_vertical");
    reveal_strlit("minecraft:");
    if x == "minecraft:block/cube_all"@ {
        assert(x.take(10) =~= "minecraft:"@);
        assert(x.skip(10) =~= "block/cube_all"@);
    }
    if x == "block/cube_all"@ {
        assert(x.take(10int)[0] != "minecraft:"@[0]);
    }
    if x == "minecraft:block/cube_column"@ {
        assert(x.take(10) =~= "minecraft:"@);
        assert(x.skip(10) =~= "block/cube_column"@);
    }
    if x == "block/cube_column"@ {
        assert(x.take(10int)[0] != "minecraft:"@[0]);
    }
    if x == "minecraft:block/cube_column_horizontal"@ {
        assert(x.take(10) =~= "minecraft:"@);
        assert(x.skip(10) =~= "block/cube_column_horizontal"@);
    }
    if x == "block/cube_column_horizontal"@ {
        assert(x.take(10int)[0] != "minecraft:"@[0]);
    }
    if x == "minecraft:block/cube_bottom_top"@ {
        assert(x.take(10) =~= "minecraft:"@);
        assert(x.skip(10) =~= "block/cube_bottom_top"@);
    }
    if x == "block/cube_bottom_top"@ {
        assert(x.take(10int)[0] != "minecraft:"@[0]);
    }
    if x == "minecraft:block/cube"@ {
        assert(x.take(10) =~= "minecraft:"@);
        assert(x.skip(10) =~= "block/cube"@);
    }
    if x == "block/cube"@ {
        assert(x.take(10int)[0] != "minecraft:"@[0]);
    }
    if x == "minecraft:block/orientable"@ {
        assert(x.take(10) =~= "minecraft:"@);
        assert(x.skip(10) =~= "block/orientable"@);
    }
    if x == "block/orientable"@ {
        assert(x.take(10int)[0] != "minecraft:"@[0]);
    }
    if x == "minecraft:block/orientable_vertical"@ {
        assert(x.take(10) =~= "minecraft:"@);
        assert(x.skip(10) =~= "block/orientable_vertical"@);
    }
    if x == "block/orientable_vertical"@ {
        assert(x.take(10int)[0] != "minecraft:"@[0]);
    }
}

/// When `ns:path` is a well-known block parent, so is `path`.
proof fn lemma_qualified_block_parent(ns: Seq<char>, path: Seq<char>)
    requires
        is_block_parent(qualified(ns, path)),
    ensures
        is_block_parent(path),
{
    let q = qualified(ns, path);
    reveal_strlit("block/cube_all");
    reveal_strlit("minecraft:block/cube_all");
    reveal_strlit("block/cube_column");
    reveal_strlit("minecraft:block/cube_column");
    reveal_strlit("block/cube_column_horizontal");
    reveal_strlit("minecraft:block/cube_column_horizontal");
    reveal_strlit("block/cube_bottom_top");
    reveal_strlit("minecraft:block/cube_bottom_top");
    reveal_strlit("block/cube");
    reveal_strlit("minecraft:block/cube");
    reveal_strlit("block/orientable");
    reveal_strlit("minecraft:block/orientable");
    reveal_strlit("block/orientable_vertical");
    reveal_strlit("minecraft:block/orientable_vertical");
    reveal_strlit("minecraft");
    reveal_strlit(":");
    assert(q[ns.len() as int] == ':');
    if q == "minecraft:block/cube_all"@ {
        assert(q =~= "minecraft"@ + ":"@ + "block/cube_all"@);
        lemma_no_colon_literal("block/cube_all"@);
        lemma_colon_split(ns, path, "minecraft"@, "block/cube_all"@);
    }
    if q == "block/cube_all"@ {
        lemma_no_colon_literal("block/cube_all"@);
        assert(q[ns.len() as int] == ':');
    }
    if q == "minecraft:block/cube_column"@ {
        assert(q =~= "minecraft"@ + ":"@ + "block/cube_column"@);
        lemma_no_colon_literal("block/cube_column"@);
        lemma_colon_split(ns, path, "minecraft"@, "block/cube_column"@);
    }
    if q == "block/cube_column"@ {
        lemma_no_colon_literal("block/cube_column"@);
        assert(q[ns.len() as int] == ':');
    }
    if q == "minecraft:block/cube_column_horizontal"@ {
        assert(q =~= "minecraft"@ + ":"@ + "block/cube_column_horizontal"@);
        lemma_no_colon_literal("block/cube_column_horizontal"@);
        lemma_colon_split(ns, path, "minecraft"@, "block/cube_column_horizontal"@);
    }
    if q == "block/cube_column_horizontal"@ {
        lemma_no_colon_literal("block/cube_column_horizontal"@);
        assert(q[ns.len() as int] == ':');
    }
    if q == "minecraft:block/cube_bottom_top"@ {
        assert(q =~= "minecraft"@ + ":"@ + "block/cube_bottom_top"@);
        lemma_no_colon_literal("block/cube_bottom_top"@);
        lemma_colon_split(ns, path, "minecraft"@, "block/cube_bottom_top"@);
    }
    if q == "block/cube_bottom_top"@ {
        lemma_no_colon_literal("block/cube_bottom_top"@);
        assert(q[ns.len() as int] == ':');
    }
    if q == "minecraft:block/cube"@ {
        assert(q =~= "minecraft"@ + ":"@ + "block/cube"@);
        lemma_no_colon_literal("block/cube"@);
        lemma_colon_split(ns, path, "minecraft"@, "block/cube"@);
    }
    if q == "block/cube"@ {
        lemma_no_colon_literal("block/cube"@);
        assert(q[ns.len() as int] == ':');
    }
    if q == "minecraft:block/orientable"@ {
        assert(q =~= "minecraft"@ + ":"@ + "block/orientable"@);
        lemma_no_colon_literal("block/orientable"@);
        lemma_colon_split(ns, path, "minecraft"@, "block/orientable"@);
    }
    if q == "block/orientable"@ {
        lemma_no_colon_literal("block/orientable"@);
        assert(q[ns.len() as int] == ':');
    }
    if q == "minecraft:block/orientable_vertical"@ {
        assert(q =~= "minecraft"@ + ":"@ + "block/orientable_vertical"@);
        lemma_no_colon_literal("block/orientable_vertical"@);
        lemma_colon_split(ns, path, "minecraft"@, "block/orientable_vertical"@);
    }
    if q == "block/orientable_vertical"@ {
        lemma_no_colon_literal("block/orientable_vertical"@);
        assert(q[ns.len() as int] == ':');
    }
}

/// A parent written with `minecraft:` twice, such as
/// `minecraft:minecraft:block/cube`.
pub open spec fn doubly_prefixed(p: Seq<char>) -> bool {
    seq_starts_with(p, "minecraft:minecraft:"@)
}

/// The block parent found on a model's parent chain is one of the
/// well-known block parents without a `minecraft:` prefix, however the
/// chain writes it (`block/orientable` and `minecraft:block/orientable`
/// both give `block/orientable`). A parent written with the prefix twice
/// keeps one: those models are left out.
pub proof fn law_block_parent_unprefixed(models: ModelsView, path: Seq<char>, ns: Seq<char>, depth: nat)
    requires
        forall|n: Seq<char>, q: Seq<char>| #[trigger] model_at(models, n, q) matches Some(m) && m.parent matches Some(p)
            ==> !doubly_prefixed(p),
    ensures
        block_parent_spec(models, path, ns, depth) matches Some(p) ==> known_block_kind(p),
    decreases max_depth() + 1 - depth,
{
    if depth <= max_depth() {
        if is_block_parent(qualified(ns, path)) || is_block_parent(path) {
            if !is_block_parent(path) {
                lemma_qualified_block_parent(ns, path);
            }
            lemma_norm_block_parent(path);
        } else {
            match model_at(models, ns, path) {
                None => {},
                Some(m) => match m.parent {
                    None => {},
                    Some(p) => {
                        if is_block_parent(p) {
                            lemma_norm_block_parent(p);
                        } else if is_block_parent(norm_model_path(p)) {
                            let np = norm_model_path(p);
                            lemma_norm_block_parent(np);
                            reveal_strlit("minecraft:");
                            reveal_strlit("minecraft:minecraft:");
                            if seq_starts_with(np, "minecraft:"@) {
                                if !seq_starts_with(p, "minecraft:"@) {
                                    assert(np == p);
                                }
                                assert(seq_starts_with(p, "minecraft:"@));
                                assert("minecraft:minecraft:"@ =~= "minecraft:"@ + "minecraft:"@);
                                assert(p.take(20int) =~= "minecraft:minecraft:"@) by {
                                    assert(p.skip(10int).take(10int) =~= "minecraft:"@);
                                    assert(p.take(10int) =~= "minecraft:"@);
                                }
                                assert(doubly_prefixed(p));
                            }
                        } else {
                            law_block_parent_unprefixed(
                                models,
                                crate::model_resolver::parent_target(p, ns).1,
                                crate::model_resolver::parent_target(p, ns).0,
                                depth + 1,
                            );
                        }
                    },
                },
            }
        }
    }
}

} // verus!
