//! Crafting recipes: reading vanilla recipe files and exporting grid
//! contents as vanilla recipes.
use vstd::prelude::*;
use crate::assoc::{assoc_view, find_key};
use crate::sorting::{keyed, sort_by_key, sort_spec, unkeyed, values_of};
use crate::text::{chars_of, concat2, decimal, decimal_digits, push_char, str_eq, to_owned_string};
use crate::types::copy_string;

verus! {

broadcast use vstd::seq_lib::group_seq_properties;

/// A recipe slot as the grid holds it.
pub struct RecipeSlot {
    /// Slot ID (e.g. "input_0_0", "output_0").
    pub slot_id: String,
    /// Item ID placed in this slot (e.g. "minecraft:diamond").
    pub item_id: String,
    /// Row position in the grid.
    pub row: usize,
    /// Column position in the grid.
    pub col: usize,
}

/// Request to export a recipe.
pub struct ExportRecipeRequest {
    /// Type of crafting grid (e.g. "crafting_table").
    pub grid_type: String,
    /// Whether this is a shapeless recipe.
    pub shapeless: bool,
    /// Input slots with items.
    pub inputs: Vec<RecipeSlot>,
    /// Output slot(s) with result item.
    pub outputs: Vec<RecipeSlot>,
    /// Result count.
    pub count: u32,
}

/// A parsed input slot from a loaded recipe file.
pub struct ParsedRecipeSlot {
    pub slot_id: String,
    pub item_id: String,
    pub row: usize,
    pub col: usize,
}

/// A fully parsed crafting recipe.
pub struct ParsedRecipe {
    /// "shaped" or "shapeless".
    pub recipe_type: String,
    pub inputs: Vec<RecipeSlot>,
    pub output_item_id: String,
    pub count: u32,
}

/// A recipe file entry.
pub struct RecipeFileEntry {
    pub file_name: String,
    pub file_path: String,
    pub recipe: ParsedRecipe,
}

/// An ingredient: `{ "item": "..." }` or just the item id.
pub enum RawIngredient {
    Object { item: String },
    StringId(String),
}

impl View for RawIngredient {
    type V = Seq<char>;

    /// The item id of the ingredient.
    open spec fn view(&self) -> Seq<char> {
        match self {
            RawIngredient::Object { item } => item@,
            RawIngredient::StringId(s) => s@,
        }
    }
}

impl RawIngredient {
    /// The item id of the ingredient.
    pub fn item_id(&self) -> (r: &str)
        ensures
            r@ == self@,
    {
        match self {
            RawIngredient::Object { item } => item.as_str(),
            RawIngredient::StringId(s) => s.as_str(),
        }
    }
}

/// A recipe result: `{ "item": "...", "count": N }` (or `id` for `item`).
pub struct RawResult {
    pub item: Option<String>,
    pub count: Option<u32>,
}

/// A shaped recipe file: pattern rows and the ingredient of each key.
pub struct RawShapedRecipe {
    pub pattern: Vec<String>,
    pub key: Vec<(String, RawIngredient)>,
    pub result: RawResult,
}

/// A shapeless recipe file.
pub struct RawShapelessRecipe {
    pub ingredients: Vec<RawIngredient>,
    pub result: RawResult,
}

/// The recipe kinds that are read.
#[derive(PartialEq, Eq, Structural)]
pub enum RecipeKind {
    Shaped,
    Shapeless,
}

/// The kind of a recipe from its `type` field.
pub fn recipe_kind(type_field: &str) -> (r: Option<RecipeKind>)
    ensures
        type_field@ == "minecraft:crafting_shaped"@ ==> r == Some(RecipeKind::Shaped),
        type_field@ == "minecraft:crafting_shapeless"@ ==> r == Some(RecipeKind::Shapeless),
        type_field@ != "minecraft:crafting_shaped"@ && type_field@ != "minecraft:crafting_shapeless"@
            ==> r is None,
{
    proof {
        reveal_strlit("minecraft:crafting_shaped");
        reveal_strlit("minecraft:crafting_shapeless");
        assert("minecraft:crafting_shaped"@.len() != "minecraft:crafting_shapeless"@.len());
    }
    if str_eq(type_field, "minecraft:crafting_shaped") {
        Some(RecipeKind::Shaped)
    } else if str_eq(type_field, "minecraft:crafting_shapeless") {
        Some(RecipeKind::Shapeless)
    } else {
        None
    }
}

// ---------------------------------------------------------------------------
// Reading recipes
// ---------------------------------------------------------------------------

/// The id of an input slot: `input_<row>_<col>`.
pub open spec fn slot_id_spec(row: nat, col: nat) -> Seq<char> {
    "input_"@ + decimal_digits(row) + "_"@ + decimal_digits(col)
}

/// The id of an input slot.
pub fn input_slot_id(row: usize, col: usize) -> (r: String)
    ensures
        r@ == slot_id_spec(row as nat, col as nat),
{
    let mut r = concat2("input_", decimal(row).as_str());
    r.append("_");
    r.append(decimal(col).as_str());
    r
}

/// Whether a slot is at `(row, col)` holding `item` with the input slot id.
pub open spec fn slot_ok(s: RecipeSlot, row: nat, col: nat, item: Seq<char>) -> bool {
    &&& s.row == row
    &&& s.col == col
    &&& s.item_id@ == item
    &&& s.slot_id@ == slot_id_spec(row, col)
}

/// The slots of a pattern row `r`: one per non-space character, holding the
/// item of that character's key; `None` when a key is missing.
pub open spec fn row_slots(row: Seq<char>, r: nat, key: Map<Seq<char>, Seq<char>>) -> Option<Seq<(nat, nat, Seq<char>)>>
    decreases row.len(),
{
    if row.len() == 0 {
        Some(Seq::empty())
    } else {
        match row_slots(row.drop_last(), r, key) {
            None => None,
            Some(before) => {
                let c = row.last();
                if c == ' ' {
                    Some(before)
                } else if key.contains_key(seq![c]) {
                    Some(before.push((r, (row.len() - 1) as nat, key[seq![c]])))
                } else {
                    None
                }
            },
        }
    }
}

/// The slots of all pattern rows, row by row.
pub open spec fn pattern_slots(pattern: Seq<Seq<char>>, key: Map<Seq<char>, Seq<char>>) -> Option<Seq<(nat, nat, Seq<char>)>>
    decreases pattern.len(),
{
    if pattern.len() == 0 {
        Some(Seq::empty())
    } else {
        match (pattern_slots(pattern.drop_last(), key), row_slots(pattern.last(), (pattern.len() - 1) as nat, key)) {
            (Some(a), Some(b)) => Some(a + b),
            _ => None,
        }
    }
}

/// The result count: as given (1 when absent), at least 1.
pub open spec fn result_count(c: Option<u32>) -> u32 {
    match c {
        Some(n) => if n >= 1 { n } else { 1 },
        None => 1,
    }
}

/// The result count of a recipe file.
fn read_count(c: Option<u32>) -> (r: u32)
    ensures
        r == result_count(c),
{
    let n = match c {
        Some(n) => n,
        None => 1,
    };
    if n >= 1 { n } else { 1 }
}

/// Views of pattern rows.
pub open spec fn rows_view(p: Seq<String>) -> Seq<Seq<char>> {
    p.map_values(|s: String| s@)
}

/// Slots of one pattern row, appended to `out`.
fn push_row_slots(
    out: &mut Vec<RecipeSlot>,
    row: &String,
    r: usize,
    key: &Vec<(String, RawIngredient)>,
) -> (ok: bool)
    ensures
        ok == (row_slots(row@, r as nat, assoc_view(key@)) is Some),
        ok ==> {
            let add = row_slots(row@, r as nat, assoc_view(key@))->0;
            &&& final(out)@.len() == old(out)@.len() + add.len()
            &&& forall|k: int| 0 <= k < old(out)@.len() ==> #[trigger] final(out)@[k] == old(out)@[k]
            &&& forall|k: int| 0 <= k < add.len() ==> slot_ok(
                #[trigger] final(out)@[old(out)@.len() + k],
                add[k].0,
                add[k].1,
                add[k].2,
            )
        },
{
    let chars = chars_of(row.as_str());
    let ghost kv = assoc_view(key@);
    let ghost start = out@;
    let mut col: usize = 0;
    while col < chars.len()
        invariant
            chars@ == row@,
            kv == assoc_view(key@),
            col <= chars@.len(),
            row_slots(chars@.take(col as int), r as nat, kv) is Some,
            ({
                let add = row_slots(chars@.take(col as int), r as nat, kv)->0;
                &&& out@.len() == start.len() + add.len()
                &&& forall|k: int| 0 <= k < start.len() ==> #[trigger] out@[k] == start[k]
                &&& forall|k: int| 0 <= k < add.len() ==> slot_ok(#[trigger] out@[start.len() + k], add[k].0, add[k].1, add[k].2)
            }),
        decreases chars.len() - col,
    {
        let ch = chars[col];
        proof {
            assert(chars@.take(col + 1).drop_last() =~= chars@.take(col as int));
            assert(chars@.take(col + 1).last() == ch);
        }
        if ch != ' ' {
            let mut k = String::new();
            push_char(&mut k, ch);
            proof { assert(k@ =~= seq![ch]); }
            match find_key(key, k.as_str()) {
                Some(i) => {
                    let item_id = to_owned_string(key[i].1.item_id());
                    out.push(RecipeSlot { slot_id: input_slot_id(r, col), item_id, row: r, col });
                },
                None => {
                    proof {
                        lemma_row_slots_missing(chars@, col as int, r as nat, kv);
                    }
                    return false;
                },
            }
        }
        col += 1;
    }
    proof { assert(chars@.take(chars@.len() as int) =~= chars@); }
    true
}

/// A row with a missing key among its first characters has no slots.
proof fn lemma_row_slots_missing(row: Seq<char>, col: int, r: nat, key: Map<Seq<char>, Seq<char>>)
    requires
        0 <= col < row.len(),
        row_slots(row.take(col + 1), r, key) is None,
    ensures
        row_slots(row, r, key) is None,
    decreases row.len() - col,
{
    if col + 1 < row.len() {
        assert(row.take(col + 2).drop_last() =~= row.take(col + 1));
        lemma_row_slots_missing(row, col + 1, r, key);
    } else {
        assert(row.take(col + 1) =~= row);
    }
}

/// Whether the slots are exactly those of `spec`, in order.
pub open spec fn slots_match(inputs: Seq<RecipeSlot>, spec: Seq<(nat, nat, Seq<char>)>) -> bool {
    &&& inputs.len() == spec.len()
    &&& forall|k: int| 0 <= k < inputs.len() ==> slot_ok(#[trigger] inputs[k], spec[k].0, spec[k].1, spec[k].2)
}

/// Whether a shaped recipe file gives a recipe: it has a result item, every
/// pattern character has a key, and the pattern holds a slot.
pub open spec fn shaped_readable(raw: RawShapedRecipe) -> bool {
    &&& raw.result.item is Some
    &&& pattern_slots(rows_view(raw.pattern@), assoc_view(raw.key@)) matches Some(slots) && slots.len() > 0
}

/// Whether `p` is the recipe that a shaped recipe file describes: its slots
/// are those of the pattern, row by row.
pub open spec fn shaped_parsed(raw: RawShapedRecipe, p: ParsedRecipe) -> bool {
    &&& raw.result.item matches Some(item) && p.output_item_id@ == item@
    &&& pattern_slots(rows_view(raw.pattern@), assoc_view(raw.key@)) matches Some(slots)
        && slots_match(p.inputs@, slots)
    &&& p.recipe_type@ == "shaped"@
    &&& p.count == result_count(raw.result.count)
}

/// The recipe a shaped recipe file describes: one slot per non-space pattern
/// character, row by row; `None` without a result item, with a pattern
/// character that has no key, or with no slots.
pub fn parse_shaped(raw: &RawShapedRecipe) -> (r: Option<ParsedRecipe>)
    ensures
        r is Some <==> shaped_readable(*raw),
        r matches Some(p) ==> shaped_parsed(*raw, p),
{
    let result_item = match &raw.result.item {
        Some(i) => copy_string(i),
        None => return None,
    };
    let count = read_count(raw.result.count);
    let ghost rows = rows_view(raw.pattern@);
    let ghost kv = assoc_view(raw.key@);
    let mut inputs: Vec<RecipeSlot> = Vec::new();
    let mut r: usize = 0;
    while r < raw.pattern.len()
        invariant
            rows == rows_view(raw.pattern@),
            kv == assoc_view(raw.key@),
            r <= raw.pattern@.len(),
            pattern_slots(rows.take(r as int), kv) is Some,
            slots_match(inputs@, pattern_slots(rows.take(r as int), kv)->0),
        decreases raw.pattern.len() - r,
    {
        let ghost before = inputs@;
        let ok = push_row_slots(&mut inputs, &raw.pattern[r], r, &raw.key);
        proof {
            assert(rows.take(r + 1).drop_last() =~= rows.take(r as int));
            assert(rows.take(r + 1).last() == raw.pattern@[r as int]@);
        }
        if !ok {
            proof { lemma_pattern_slots_missing(rows, r as int, kv); }
            return None;
        }
        proof {
            let a = pattern_slots(rows.take(r as int), kv)->0;
            let b = row_slots(raw.pattern@[r as int]@, r as nat, kv)->0;
            assert forall|k: int| 0 <= k < inputs@.len() implies slot_ok(
                #[trigger] inputs@[k],
                (a + b)[k].0,
                (a + b)[k].1,
                (a + b)[k].2,
            ) by {
                if k < a.len() {
                    assert(inputs@[k] == before[k]);
                } else {
                    assert(inputs@[before.len() + (k - a.len())] == inputs@[k]);
                }
            }
        }
        r += 1;
    }
    proof { assert(rows.take(raw.pattern@.len() as int) =~= rows); }
    if inputs.len() == 0 {
        return None;
    }
    Some(ParsedRecipe { recipe_type: to_owned_string("shaped"), inputs, output_item_id: result_item, count })
}

/// A pattern with a row that has a missing key has no slots.
proof fn lemma_pattern_slots_missing(rows: Seq<Seq<char>>, r: int, key: Map<Seq<char>, Seq<char>>)
    requires
        0 <= r < rows.len(),
        row_slots(rows[r], r as nat, key) is None,
    ensures
        pattern_slots(rows, key) is None,
    decreases rows.len(),
{
    if r < rows.len() - 1 {
        lemma_pattern_slots_missing(rows.drop_last(), r, key);
    }
}

/// The slot of the `i`th shapeless ingredient: laid out left to right, top
/// to bottom in a 3x3 grid.
pub open spec fn shapeless_slot_ok(s: RecipeSlot, i: nat, item: Seq<char>) -> bool {
    slot_ok(s, i / 3, i % 3, item)
}

/// Whether a shapeless recipe file gives a recipe: it has a result item and
/// an ingredient.
pub open spec fn shapeless_readable(raw: RawShapelessRecipe) -> bool {
    raw.result.item is Some && raw.ingredients@.len() > 0
}

/// Whether `p` is the recipe that a shapeless recipe file describes: one
/// slot per ingredient, in order, laid out in a 3x3 grid.
pub open spec fn shapeless_parsed(raw: RawShapelessRecipe, p: ParsedRecipe) -> bool {
    &&& raw.result.item matches Some(item) && p.output_item_id@ == item@
    &&& p.inputs@.len() == raw.ingredients@.len()
    &&& forall|i: int| 0 <= i < p.inputs@.len() ==> shapeless_slot_ok(
        #[trigger] p.inputs@[i],
        i as nat,
        raw.ingredients@[i]@,
    )
    &&& p.recipe_type@ == "shapeless"@
    &&& p.count == result_count(raw.result.count)
}

/// The recipe a shapeless recipe file describes; `None` without a result
/// item or without ingredients.
pub fn parse_shapeless(raw: &RawShapelessRecipe) -> (r: Option<ParsedRecipe>)
    ensures
        r is Some <==> shapeless_readable(*raw),
        r matches Some(p) ==> shapeless_parsed(*raw, p),
{
    let result_item = match &raw.result.item {
        Some(i) => copy_string(i),
        None => return None,
    };
    let count = read_count(raw.result.count);
    if raw.ingredients.len() == 0 {
        return None;
    }
    let mut inputs: Vec<RecipeSlot> = Vec::new();
    let mut i: usize = 0;
    while i < raw.ingredients.len()
        invariant
            i <= raw.ingredients@.len(),
            inputs@.len() == i,
            forall|k: int| 0 <= k < i ==> shapeless_slot_ok(#[trigger] inputs@[k], k as nat, raw.ingredients@[k]@),
        decreases raw.ingredients.len() - i,
    {
        let row = i / 3;
        let col = i % 3;
        let item_id = to_owned_string(raw.ingredients[i].item_id());
        inputs.push(RecipeSlot { slot_id: input_slot_id(row, col), item_id, row, col });
        i += 1;
    }
    Some(ParsedRecipe { recipe_type: to_owned_string("shapeless"), inputs, output_item_id: result_item, count })
}

/// Recipe entries keyed by file name.
pub open spec fn entries_by_file_name(s: Seq<RecipeFileEntry>) -> Seq<(Seq<char>, RecipeFileEntry)> {
    s.map_values(|e: RecipeFileEntry| (e.file_name@, e))
}

/// Recipe entries ordered by file name, stably.
pub fn sort_recipe_entries(entries: Vec<RecipeFileEntry>) -> (r: Vec<RecipeFileEntry>)
    ensures
        r@ == unkeyed(sort_spec(entries_by_file_name(entries@))),
{
    let ghost orig = entries@;
    let mut rest = entries;
    let mut keyed_entries: Vec<(String, RecipeFileEntry)> = Vec::new();
    let n = rest.len();
    let mut i: usize = 0;
    while i < n
        invariant
            n == orig.len(),
            i <= n,
            rest@ == orig.skip(i as int),
            keyed(keyed_entries@) == entries_by_file_name(orig.take(i as int)),
        decreases n - i,
    {
        let e = rest.remove(0);
        proof {
            assert(orig.skip(i as int).drop_first() =~= orig.skip(i + 1));
            assert(orig.take(i + 1) =~= orig.take(i as int).push(e));
        }
        let key = copy_string(&e.file_name);
        let ghost before = keyed_entries@;
        keyed_entries.push((key, e));
        proof {
            assert(keyed(keyed_entries@) =~= keyed(before).push((key@, e)));
            assert(entries_by_file_name(orig.take(i + 1)) =~= entries_by_file_name(orig.take(i as int)).push(
                (e.file_name@, e),
            ));
        }
        i += 1;
    }
    proof { assert(orig.take(n as int) =~= orig); }
    let sorted = sort_by_key(keyed_entries);
    values_of(sorted)
}

} // verus!
