//! Vanilla (1.19.2 format) recipe JSON from grid contents.
use vstd::prelude::*;
use crate::assoc::find_key;
use crate::recipe::{ExportRecipeRequest, RecipeSlot};
use crate::text::{push_char, to_owned_string};
use crate::types::copy_string;

verus! {

broadcast use vstd::seq_lib::group_seq_properties;

/// The `result` object of a recipe: the item, and the count when above 1.
pub struct RecipeResultJson {
    pub item: String,
    pub count: Option<u32>,
}

/// A vanilla recipe, as its JSON holds it.
pub enum RecipeJson {
    /// `minecraft:crafting_shaped`: pattern rows and the item of each key.
    Shaped { pattern: Vec<String>, key: Vec<(char, String)>, result: RecipeResultJson },
    /// `minecraft:crafting_shapeless`: the ingredient items.
    Shapeless { ingredients: Vec<String>, result: RecipeResultJson },
}

/// The key characters, in order of assignment.
pub open spec fn key_chars() -> Seq<char> {
    seq!['A', 'B', 'C', 'D', 'E', 'F', 'G', 'H', 'I']
}

/// The distinct items of the slots, in order of first appearance.
pub open spec fn unique_items(inputs: Seq<RecipeSlot>) -> Seq<Seq<char>>
    decreases inputs.len(),
{
    if inputs.len() == 0 {
        Seq::empty()
    } else {
        let before = unique_items(inputs.drop_last());
        if before.contains(inputs.last().item_id@) {
            before
        } else {
            before.push(inputs.last().item_id@)
        }
    }
}

/// The smallest row of the slots.
pub open spec fn min_row(s: Seq<RecipeSlot>) -> int
    decreases s.len(),
{
    if s.len() <= 1 {
        if s.len() == 0 { 0 } else { s[0].row as int }
    } else {
        let m = min_row(s.drop_last());
        if (s.last().row as int) < m { s.last().row as int } else { m }
    }
}

/// The largest row of the slots.
pub open spec fn max_row(s: Seq<RecipeSlot>) -> int
    decreases s.len(),
{
    if s.len() <= 1 {
        if s.len() == 0 { 0 } else { s[0].row as int }
    } else {
        let m = max_row(s.drop_last());
        if (s.last().row as int) > m { s.last().row as int } else { m }
    }
}

/// The smallest column of the slots.
pub open spec fn min_col(s: Seq<RecipeSlot>) -> int
    decreases s.len(),
{
    if s.len() <= 1 {
        if s.len() == 0 { 0 } else { s[0].col as int }
    } else {
        let m = min_col(s.drop_last());
        if (s.last().col as int) < m { s.last().col as int } else { m }
    }
}

/// The largest column of the slots.
pub open spec fn max_col(s: Seq<RecipeSlot>) -> int
    decreases s.len(),
{
    if s.len() <= 1 {
        if s.len() == 0 { 0 } else { s[0].col as int }
    } else {
        let m = max_col(s.drop_last());
        if (s.last().col as int) > m { s.last().col as int } else { m }
    }
}

/// Index of the first slot at `(row, col)`.
pub open spec fn slot_at(s: Seq<RecipeSlot>, row: int, col: int) -> Option<int>
    decreases s.len(),
{
    if s.len() == 0 {
        None
    } else if s[0].row as int == row && s[0].col as int == col {
        Some(0)
    } else {
        match slot_at(s.drop_first(), row, col) {
            Some(i) => Some(i + 1),
            None => None,
        }
    }
}

/// Position of the first occurrence of `item` in `s`.
pub open spec fn first_pos(s: Seq<Seq<char>>, item: Seq<char>) -> int
    decreases s.len(),
{
    if s.len() == 0 {
        0
    } else if s[0] == item {
        0
    } else {
        first_pos(s.drop_first(), item) + 1
    }
}

/// The key character of an item.
pub open spec fn key_of(uniq: Seq<Seq<char>>, item: Seq<char>) -> char {
    key_chars()[first_pos(uniq, item)]
}

/// The pattern character of a grid cell: the key of the item of the first
/// slot there, or a space.
pub open spec fn cell_char(s: Seq<RecipeSlot>, row: int, col: int) -> char {
    match slot_at(s, row, col) {
        Some(i) => key_of(unique_items(s), s[i].item_id@),
        None => ' ',
    }
}

/// The pattern rows over the bounding box of the slots.
pub open spec fn pattern_spec(s: Seq<RecipeSlot>) -> Seq<Seq<char>> {
    Seq::new(
        (max_row(s) - min_row(s) + 1) as nat,
        |r: int| Seq::new((max_col(s) - min_col(s) + 1) as nat, |c: int| cell_char(s, r + min_row(s), c + min_col(s))),
    )
}

/// The result object for `count` (at least 1).
pub open spec fn result_ok(r: RecipeResultJson, item: Seq<char>, count: u32) -> bool {
    &&& r.item@ == item
    &&& r.count == if count > 1 { Some(count) } else { None::<u32> }
}

/// The result object of a recipe.
fn result_json(output_item: &str, count: u32) -> (r: RecipeResultJson)
    ensures
        result_ok(r, output_item@, count),
{
    RecipeResultJson { item: to_owned_string(output_item), count: if count > 1 { Some(count) } else { None } }
}

/// Whether `r` is the shapeless recipe of the slots: their items, in order.
pub open spec fn shapeless_exported(r: RecipeJson, item: Seq<char>, count: u32, inputs: Seq<RecipeSlot>) -> bool {
    r matches RecipeJson::Shapeless { ingredients, result } && result_ok(result, item, count)
        && ingredients@.len() == inputs.len()
        && forall|i: int| 0 <= i < inputs.len() ==> #[trigger] ingredients@[i]@ == inputs[i].item_id@
}

/// A shapeless recipe: the items of the slots, in order.
pub fn export_shapeless(output_item: &str, count: u32, inputs: &Vec<RecipeSlot>) -> (r: RecipeJson)
    ensures
        shapeless_exported(r, output_item@, count, inputs@),
{
    let mut ingredients: Vec<String> = Vec::new();
    let mut i: usize = 0;
    while i < inputs.len()
        invariant
            i <= inputs@.len(),
            ingredients@.len() == i,
            forall|k: int| 0 <= k < i ==> #[trigger] ingredients@[k]@ == inputs@[k].item_id@,
        decreases inputs.len() - i,
    {
        ingredients.push(copy_string(&inputs[i].item_id));
        i += 1;
    }
    RecipeJson::Shapeless { ingredients, result: result_json(output_item, count) }
}

// ---------------------------------------------------------------------------
// Shaped recipes
// ---------------------------------------------------------------------------

/// The distinct items of a prefix of the slots begin the distinct items of
/// all of them.
proof fn lemma_unique_prefix(s: Seq<RecipeSlot>, i: int)
    requires
        0 <= i <= s.len(),
    ensures
        unique_items(s.take(i)).len() <= unique_items(s).len(),
        unique_items(s).take(unique_items(s.take(i)).len() as int) == unique_items(s.take(i)),
    decreases s.len(),
{
    if i == s.len() {
        assert(s.take(i) =~= s);
        assert(unique_items(s).take(unique_items(s).len() as int) =~= unique_items(s));
    } else {
        lemma_unique_prefix(s.drop_last(), i);
        assert(s.drop_last().take(i) =~= s.take(i));
        let u = unique_items(s.take(i));
        let p = unique_items(s.drop_last());
        assert(unique_items(s).take(u.len() as int) =~= p.take(u.len() as int));
    }
}

/// Every item of the slots is among the distinct items.
pub proof fn lemma_unique_contains(s: Seq<RecipeSlot>, j: int)
    requires
        0 <= j < s.len(),
    ensures
        unique_items(s).contains(s[j].item_id@),
    decreases s.len(),
{
    if j < s.len() - 1 {
        lemma_unique_contains(s.drop_last(), j);
    }
}

/// Key entries that pair the distinct items with key characters look up
/// an item's key character.
proof fn lemma_keys_lookup(keys: Seq<(String, char)>, uniq: Seq<Seq<char>>, item: Seq<char>)
    requires
        keys.len() == uniq.len(),
        forall|k: int| 0 <= k < keys.len() ==> (#[trigger] keys[k]).0@ == uniq[k],
        uniq.contains(item),
    ensures
        crate::assoc::first_key_index(keys, item) == Some(first_pos(uniq, item)),
        0 <= first_pos(uniq, item) < uniq.len(),
    decreases keys.len(),
{
    if uniq[0] != item {
        assert(uniq.drop_first().contains(item)) by {
            let j = choose|j: int| 0 <= j < uniq.len() && uniq[j] == item;
            assert(uniq.drop_first()[j - 1] == item);
        }
        assert forall|k: int| 0 <= k < keys.drop_first().len() implies (#[trigger] keys.drop_first()[k]).0@ == uniq.drop_first()[k] by {
            assert(keys.drop_first()[k] == keys[k + 1]);
        }
        lemma_keys_lookup(keys.drop_first(), uniq.drop_first(), item);
    }
}

/// The message for more than nine distinct items.
pub open spec fn too_many_items_message() -> Seq<char> {
    "Too many unique items for shaped recipe (max 9)"@
}

/// Key entries: the distinct items of the first slots, each with its key.
fn assign_keys(inputs: &Vec<RecipeSlot>) -> (r: Result<Vec<(String, char)>, String>)
    ensures
        unique_items(inputs@).len() > 9 ==> (r matches Err(e) && e@ == too_many_items_message()),
        unique_items(inputs@).len() <= 9 ==> (r matches Ok(keys) && keys@.len() == unique_items(inputs@).len()
            && forall|k: int| 0 <= k < keys@.len() ==> (#[trigger] keys@[k]).0@ == unique_items(inputs@)[k]
                && keys@[k].1 == key_chars()[k]),
{
    let chars: [char; 9] = ['A', 'B', 'C', 'D', 'E', 'F', 'G', 'H', 'I'];
    proof { assert(chars@ =~= key_chars()); }
    let mut keys: Vec<(String, char)> = Vec::new();
    let mut i: usize = 0;
    proof { assert(inputs@.take(0) =~= Seq::<RecipeSlot>::empty()); }
    while i < inputs.len()
        invariant
            chars@ == key_chars(),
            i <= inputs@.len(),
            unique_items(inputs@.take(i as int)).len() <= 9,
            keys@.len() == unique_items(inputs@.take(i as int)).len(),
            forall|k: int| 0 <= k < keys@.len() ==> (#[trigger] keys@[k]).0@ == unique_items(inputs@.take(i as int))[k]
                && keys@[k].1 == key_chars()[k],
        decreases inputs.len() - i,
    {
        let ghost u = unique_items(inputs@.take(i as int));
        proof {
            assert(inputs@.take(i + 1).drop_last() =~= inputs@.take(i as int));
            assert(inputs@.take(i + 1).last() == inputs@[i as int]);
        }
        let item = &inputs[i].item_id;
        match find_key(&keys, item.as_str()) {
            Some(_) => {
                proof {
                    crate::assoc::lemma_assoc_dom(keys@, item@);
                    let j = choose|j: int| 0 <= j < keys@.len() && #[trigger] keys@[j].0@ == item@;
                    assert(u[j] == item@);
                }
            },
            None => {
                proof {
                    crate::assoc::lemma_assoc_dom(keys@, item@);
                    if u.contains(item@) {
                        let j = choose|j: int| 0 <= j < u.len() && u[j] == item@;
                        assert(keys@[j].0@ == item@);
                    }
                }
                if keys.len() >= 9 {
                    proof { lemma_unique_prefix(inputs@, i + 1); }
                    return Err(to_owned_string("Too many unique items for shaped recipe (max 9)"));
                }
                let c = chars[keys.len()];
                keys.push((copy_string(item), c));
            },
        }
        i += 1;
    }
    proof { assert(inputs@.take(inputs@.len() as int) =~= inputs@); }
    Ok(keys)
}

/// The bounds of the slots: smallest row, largest row, smallest column,
/// largest column.
fn bounds(inputs: &Vec<RecipeSlot>) -> (r: (usize, usize, usize, usize))
    ensures
        r.0 == min_row(inputs@),
        r.1 == max_row(inputs@),
        r.2 == min_col(inputs@),
        r.3 == max_col(inputs@),
{
    if inputs.len() == 0 {
        return (0, 0, 0, 0);
    }
    let mut a = inputs[0].row;
    let mut b = inputs[0].row;
    let mut c = inputs[0].col;
    let mut d = inputs[0].col;
    let mut i: usize = 1;
    proof { assert(inputs@.take(1).drop_last() =~= Seq::<RecipeSlot>::empty()); }
    while i < inputs.len()
        invariant
            1 <= i <= inputs@.len(),
            a == min_row(inputs@.take(i as int)),
            b == max_row(inputs@.take(i as int)),
            c == min_col(inputs@.take(i as int)),
            d == max_col(inputs@.take(i as int)),
        decreases inputs.len() - i,
    {
        proof {
            assert(inputs@.take(i + 1).drop_last() =~= inputs@.take(i as int));
            assert(inputs@.take(i + 1).last() == inputs@[i as int]);
        }
        let s = &inputs[i];
        if s.row < a { a = s.row; }
        if s.row > b { b = s.row; }
        if s.col < c { c = s.col; }
        if s.col > d { d = s.col; }
        i += 1;
    }
    proof { assert(inputs@.take(inputs@.len() as int) =~= inputs@); }
    (a, b, c, d)
}

/// Index of the first slot at `(row, col)`.
fn find_slot(inputs: &Vec<RecipeSlot>, row: usize, col: usize) -> (r: Option<usize>)
    ensures
        match r {
            Some(i) => slot_at(inputs@, row as int, col as int) == Some(i as int) && i < inputs@.len(),
            None => slot_at(inputs@, row as int, col as int) is None,
        },
{
    let mut i: usize = 0;
    while i < inputs.len()
        invariant
            i <= inputs@.len(),
            slot_at(inputs@, row as int, col as int) == match slot_at(inputs@.skip(i as int), row as int, col as int) {
                Some(k) => Some(k + i),
                None => None,
            },
        decreases inputs.len() - i,
    {
        proof { assert(inputs@.skip(i as int).drop_first() =~= inputs@.skip(i + 1)); }
        if inputs[i].row == row && inputs[i].col == col {
            return Some(i);
        }
        i += 1;
    }
    None
}

/// Whether the key entries are the distinct items of the slots with their keys.
pub open spec fn keys_ok(keys: Seq<(char, String)>, inputs: Seq<RecipeSlot>) -> bool {
    &&& keys.len() == unique_items(inputs).len()
    &&& forall|k: int| 0 <= k < keys.len() ==> (#[trigger] keys[k]).0 == key_chars()[k]
        && keys[k].1@ == unique_items(inputs)[k]
}

/// The spread of rows and of columns fits in `usize` arithmetic.
pub open spec fn spread_ok(inputs: Seq<RecipeSlot>) -> bool {
    &&& max_row(inputs) - min_row(inputs) < usize::MAX
    &&& max_col(inputs) - min_col(inputs) < usize::MAX
}

/// Whether `r` is the shaped recipe of the slots: the pattern over their
/// bounding box and the distinct items keyed in order.
pub open spec fn shaped_exported(r: RecipeJson, item: Seq<char>, count: u32, inputs: Seq<RecipeSlot>) -> bool {
    r matches RecipeJson::Shaped { pattern, key, result }
        && unique_items(inputs).len() <= 9
        && result_ok(result, item, count)
        && keys_ok(key@, inputs)
        && pattern@.map_values(|p: String| p@) == pattern_spec(inputs)
}

/// A shaped recipe: the bounding box of the slots as pattern rows, each
/// distinct item keyed `A` to `I` in order of first appearance; an error
/// beyond nine distinct items. Without slots the pattern is one blank cell.
pub fn export_shaped(output_item: &str, count: u32, inputs: &Vec<RecipeSlot>) -> (r: Result<RecipeJson, String>)
    requires
        spread_ok(inputs@),
    ensures
        unique_items(inputs@).len() > 9 ==> (r matches Err(e) && e@ == too_many_items_message()),
        unique_items(inputs@).len() <= 9 ==> (r matches Ok(j) && shaped_exported(j, output_item@, count, inputs@)),
{
    let (min_r, max_r, min_c, max_c) = bounds(inputs);
    let rows = max_r - min_r + 1;
    let cols = max_c - min_c + 1;
    let keys = assign_keys(inputs)?;
    let ghost uniq = unique_items(inputs@);
    let ghost spec = pattern_spec(inputs@);
    let mut pattern: Vec<String> = Vec::new();
    let mut row: usize = 0;
    while row < rows
        invariant
            rows == max_row(inputs@) - min_row(inputs@) + 1,
            cols == max_col(inputs@) - min_col(inputs@) + 1,
            min_r == min_row(inputs@),
            min_c == min_col(inputs@),
            max_r == max_row(inputs@),
            max_c == max_col(inputs@),
            uniq == unique_items(inputs@),
            spec == pattern_spec(inputs@),
            keys@.len() == uniq.len(),
            forall|k: int| 0 <= k < keys@.len() ==> (#[trigger] keys@[k]).0@ == uniq[k] && keys@[k].1 == key_chars()[k],
            row <= rows,
            pattern@.len() == row,
            forall|k: int| 0 <= k < row ==> #[trigger] pattern@[k]@ == spec[k],
        decreases rows - row,
    {
        let mut line = String::new();
        let mut col: usize = 0;
        while col < cols
            invariant
                rows == max_row(inputs@) - min_row(inputs@) + 1,
                cols == max_col(inputs@) - min_col(inputs@) + 1,
                min_r == min_row(inputs@),
                min_c == min_col(inputs@),
                max_r == max_row(inputs@),
                max_c == max_col(inputs@),
                uniq == unique_items(inputs@),
                spec == pattern_spec(inputs@),
                keys@.len() == uniq.len(),
                forall|k: int| 0 <= k < keys@.len() ==> (#[trigger] keys@[k]).0@ == uniq[k] && keys@[k].1 == key_chars()[k],
                row < rows,
                col <= cols,
                line@ == spec[row as int].take(col as int),
            decreases cols - col,
        {
            let actual_row = row + min_r;
            let actual_col = col + min_c;
            let c = match find_slot(inputs, actual_row, actual_col) {
                Some(i) => {
                    proof {
                        lemma_unique_contains(inputs@, i as int);
                        lemma_keys_lookup(keys@, uniq, inputs@[i as int].item_id@);
                        crate::assoc::lemma_first_key_index(keys@, inputs@[i as int].item_id@);
                    }
                    match find_key(&keys, inputs[i].item_id.as_str()) {
                        Some(j) => keys[j].1,
                        None => ' ',
                    }
                },
                None => ' ',
            };
            proof {
                assert(c == cell_char(inputs@, row + min_row(inputs@), col + min_col(inputs@)));
                assert(spec[row as int].take(col + 1) =~= spec[row as int].take(col as int).push(c));
            }
            push_char(&mut line, c);
            col += 1;
        }
        proof { assert(spec[row as int].take(cols as int) =~= spec[row as int]); }
        pattern.push(line);
        row += 1;
    }
    let mut key: Vec<(char, String)> = Vec::new();
    let mut k: usize = 0;
    while k < keys.len()
        invariant
            keys@.len() == uniq.len(),
            uniq == unique_items(inputs@),
            forall|m: int| 0 <= m < keys@.len() ==> (#[trigger] keys@[m]).0@ == uniq[m] && keys@[m].1 == key_chars()[m],
            k <= keys@.len(),
            key@.len() == k,
            forall|m: int| 0 <= m < k ==> (#[trigger] key@[m]).0 == key_chars()[m] && key@[m].1@ == uniq[m],
        decreases keys.len() - k,
    {
        key.push((keys[k].1, copy_string(&keys[k].0)));
        k += 1;
    }
    proof { assert(pattern@.map_values(|p: String| p@) =~= spec); }
    Ok(RecipeJson::Shaped { pattern, key, result: result_json(output_item, count) })
}

/// The message for a request without an output.
pub open spec fn no_output_message() -> Seq<char> {
    "No output item specified"@
}

/// The message for a request without inputs.
pub open spec fn no_input_message() -> Seq<char> {
    "No input items specified"@
}

/// A vanilla recipe from grid contents: shapeless or shaped as requested,
/// with the first output's item and a count of at least 1.
pub fn export_recipe(request: &ExportRecipeRequest) -> (r: Result<RecipeJson, String>)
    requires
        !request.shapeless && request.outputs@.len() > 0 && request.inputs@.len() > 0 ==> spread_ok(request.inputs@),
    ensures
        request.outputs@.len() == 0 ==> (r matches Err(e) && e@ == no_output_message()),
        request.outputs@.len() > 0 && request.inputs@.len() == 0 ==> (r matches Err(e) && e@ == no_input_message()),
        request.outputs@.len() > 0 && request.inputs@.len() > 0 ==> {
            let item = request.outputs@[0].item_id@;
            let count = if request.count >= 1 { request.count } else { 1 };
            if request.shapeless {
                r matches Ok(j) && shapeless_exported(j, item, count, request.inputs@)
            } else {
                &&& unique_items(request.inputs@).len() > 9 ==> (r matches Err(e) && e@ == too_many_items_message())
                &&& unique_items(request.inputs@).len() <= 9 ==> (r matches Ok(j)
                    && shaped_exported(j, item, count, request.inputs@))
            }
        },
{
    if request.outputs.len() == 0 {
        return Err(to_owned_string("No output item specified"));
    }
    if request.inputs.len() == 0 {
        return Err(to_owned_string("No input items specified"));
    }
    let output_item = request.outputs[0].item_id.as_str();
    let count = if request.count >= 1 { request.count } else { 1 };
    if request.shapeless {
        Ok(export_shapeless(output_item, count, &request.inputs))
    } else {
        export_shaped(output_item, count, &request.inputs)
    }
}

} // verus!
