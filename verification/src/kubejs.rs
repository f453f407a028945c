//! KubeJS startup scripts and asset overrides.
use vstd::prelude::*;
use crate::assoc::find_key;
use crate::encoding::{png_data_uri, png_uri_spec};
use crate::model_resolver::opt_view;
use crate::text::{chars_of, concat2, concat3, contains, join_with, lines_of, seq_contains, seq_ends_with, split_char, split_on, string_from, to_owned_string, uppercase_char, char_uppercase};
use crate::texture_renderer::TextureStore;
use crate::types::{copy_string, ItemInfo, ModSource};

verus! {

broadcast use vstd::seq_lib::group_seq_properties;

// ---------------------------------------------------------------------------
// Display names
// ---------------------------------------------------------------------------

/// A word with its first character uppercased.
pub open spec fn title_word(w: Seq<char>) -> Seq<char> {
    if w.len() == 0 {
        w
    } else {
        char_uppercase(w[0]) + w.drop_first()
    }
}

/// The words of a snake_case name, each capitalized, joined with spaces.
pub open spec fn snake_to_title_spec(name: Seq<char>) -> Seq<char> {
    join_with(split_char(name, '_').map_values(|w: Seq<char>| title_word(w)), " "@)
}

/// A word with its first character uppercased.
fn title_case_word(w: &str) -> (r: String)
    ensures
        r@ == title_word(w@),
{
    let c = chars_of(w);
    if c.len() == 0 {
        return String::new();
    }
    let mut r = uppercase_char(c[0]);
    let rest = string_from(&c, 1, c.len());
    r.append(rest.as_str());
    proof { assert(w@.drop_first() =~= c@.subrange(1, c@.len() as int)); }
    r
}

/// Converts a snake_case name to Title Case for display,
/// e.g. `diamond_sword` to `Diamond Sword`.
pub fn snake_to_title(name: &str) -> (r: String)
    ensures
        r@ == snake_to_title_spec(name@),
{
    let words = split_on(name, '_');
    let ghost titled = split_char(name@, '_').map_values(|w: Seq<char>| title_word(w));
    let mut r = String::new();
    let mut i: usize = 0;
    while i < words.len()
        invariant
            words@.len() == split_char(name@, '_').len(),
            forall|k: int| 0 <= k < words@.len() ==> #[trigger] words@[k]@ == split_char(name@, '_')[k],
            titled == split_char(name@, '_').map_values(|w: Seq<char>| title_word(w)),
            i <= words@.len(),
            r@ == join_with(titled.take(i as int), " "@),
        decreases words.len() - i,
    {
        if i > 0 {
            r.append(" ");
        }
        let t = title_case_word(words[i].as_str());
        r.append(t.as_str());
        proof {
            let tk = titled.take(i + 1);
            assert(tk.drop_last() =~= titled.take(i as int));
            assert(tk.last() == t@);
            if i == 0 {
                assert(titled.take(0) =~= Seq::<Seq<char>>::empty());
                assert(join_with(tk, " "@) == tk[0]);
            }
        }
        i += 1;
    }
    proof { assert(titled.take(words@.len() as int) =~= titled); }
    r
}

// ---------------------------------------------------------------------------
// Lines
// ---------------------------------------------------------------------------

/// The lines of a text, as `str::lines` gives them.
pub fn lines(s: &str) -> (r: Vec<String>)
    ensures
        r@.len() == lines_of(s@).len(),
        forall|i: int| 0 <= i < r@.len() ==> #[trigger] r@[i]@ == lines_of(s@)[i],
{
    let pieces = split_on(s, '\n');
    let ghost ps = split_char(s@, '\n');
    proof { crate::text::lemma_split_char_nonempty(s@, '\n'); }
    let n = pieces.len();
    let kept = if pieces[n - 1].unicode_len() == 0 { n - 1 } else { n };
    let mut r: Vec<String> = Vec::new();
    let mut i: usize = 0;
    while i < kept
        invariant
            pieces@.len() == ps.len() == n,
            n >= 1,
            forall|k: int| 0 <= k < n ==> #[trigger] pieces@[k]@ == ps[k],
            ps == split_char(s@, '\n'),
            kept == (if ps.last().len() == 0 { n - 1 } else { n as int }),
            i <= kept,
            r@.len() == i,
            forall|k: int| 0 <= k < i ==> #[trigger] r@[k]@ == lines_of(s@)[k],
        decreases kept - i,
    {
        let c = chars_of(pieces[i].as_str());
        let line = if i + 1 < n && c.len() > 0 && c[c.len() - 1] == '\r' {
            string_from(&c, 0, c.len() - 1)
        } else {
            string_from(&c, 0, c.len())
        };
        proof {
            let kp = if ps.last().len() == 0 { ps.drop_last() } else { ps };
            assert(kp[i as int] == ps[i as int]);
            assert(c@.subrange(0, c@.len() as int) =~= c@);
            if c@.len() > 0 {
                assert(seq_ends_with(c@, seq!['\r']) == (c@[c@.len() - 1] == '\r')) by {
                    if c@[c@.len() - 1] == '\r' {
                        assert(c@.skip(c@.len() - 1) =~= seq!['\r']);
                    } else {
                        assert(c@.skip(c@.len() - 1)[0] != seq!['\r'][0]);
                    }
                }
                assert(c@.subrange(0, c@.len() - 1) =~= c@.drop_last());
            }
        }
        r.push(line);
        i += 1;
    }
    r
}

// ---------------------------------------------------------------------------
// Regular expressions
// ---------------------------------------------------------------------------

#[verifier::external_type_specification]
#[verifier::external_body]
pub struct ExRegex(regex::Regex);

#[verifier::external_type_specification]
#[verifier::external_body]
pub struct ExRegexError(regex::Error);

/// The text of capture group 1 in the leftmost-first match of regular
/// expression `pattern` in `haystack` (per the `regex` crate), or `None`
/// when nothing matches.
pub uninterp spec fn regex_first_group(pattern: Seq<char>, haystack: Seq<char>) -> Option<Seq<char>>;

/// Whether `pattern` compiles as a regular expression (per `regex::Regex::new`
/// with its default limits).
pub uninterp spec fn regex_compiles(pattern: Seq<char>) -> bool;

/// A compiled regular expression with the pattern it was compiled from.
pub struct Matcher {
    re: regex::Regex,
    pattern: Ghost<Seq<char>>,
}

impl Matcher {
    /// The pattern this matcher was compiled from.
    pub closed spec fn pattern(&self) -> Seq<char> {
        self.pattern@
    }
}

/// Compiles a pattern with `regex::Regex::new`. It succeeds exactly when the
/// pattern compiles, which depends on the pattern alone, and the compiled
/// expression is tied to its pattern.
#[verifier::external_body]
fn compile_regex(pattern: &str) -> (r: Result<Matcher, regex::Error>)
    ensures
        r is Ok <==> regex_compiles(pattern@),
        r matches Ok(m) ==> m.pattern() == pattern@,
{
    regex::Regex::new(pattern).map(|re| Matcher { re, pattern: Ghost(pattern@) })
}

/// The first-match capture group 1 (`Regex::captures`, then group 1).
#[verifier::external_body]
fn first_group(m: &Matcher, haystack: &str) -> (r: Option<String>)
    ensures
        match r {
            Some(g) => regex_first_group(m.pattern(), haystack@) == Some(g@),
            None => regex_first_group(m.pattern(), haystack@) is None,
        },
{
    m.re.captures(haystack).and_then(|c| c.get(1)).map(|g| g.as_str().to_string())
}

/// Every match of regular expression `pattern` in `haystack`, in order (per
/// the `regex` crate's `captures_iter`: successive non-overlapping matches):
/// the character offset where the match starts, and the text of capture
/// group 1 when that group took part in the match.
pub uninterp spec fn regex_all_groups(pattern: Seq<char>, haystack: Seq<char>) -> Seq<(nat, Option<Seq<char>>)>;

/// Views of matches: start offsets and group texts.
pub open spec fn match_views(v: Seq<(usize, Option<String>)>) -> Seq<(nat, Option<Seq<char>>)> {
    v.map_values(|e: (usize, Option<String>)| (e.0 as nat, opt_view(e.1)))
}

/// All matches in a haystack (`Regex::captures_iter`), each as the character
/// offset of the match start (`Captures::get_match`) and capture group 1
/// (`Captures::get(1)`). The matches come in order and do not overlap, so
/// their starts never decrease and lie within the haystack.
#[verifier::external_body]
fn all_groups(m: &Matcher, haystack: &str) -> (r: Vec<(usize, Option<String>)>)
    ensures
        match_views(r@) == regex_all_groups(m.pattern(), haystack@),
        forall|k: int| 0 <= k < r@.len() ==> (#[trigger] r@[k]).0 <= haystack@.len(),
        forall|a: int, b: int| 0 <= a < b < r@.len() ==> (#[trigger] r@[a]).0 <= (#[trigger] r@[b]).0,
{
    m.re.captures_iter(haystack)
        .map(|c| (haystack[..c.get_match().start()].chars().count(), c.get(1).map(|g| g.as_str().to_string())))
        .collect()
}

/// The text of a compile error (`regex::Error`'s `Display`). Nothing is
/// stated of the text.
#[verifier::external_body]
fn regex_error_text(e: &regex::Error) -> (r: String)
{
    e.to_string()
}

/// The message for a pattern that failed to compile: `Regex error: `
/// followed by the error's text.
fn regex_error_message(e: &regex::Error) -> (r: String)
    ensures
        r@.len() >= "Regex error: "@.len(),
        r@.take("Regex error: "@.len() as int) == "Regex error: "@,
{
    let text = regex_error_text(e);
    let r = concat2("Regex error: ", text.as_str());
    proof { assert(r@.take("Regex error: "@.len() as int) =~= "Regex error: "@); }
    r
}

/// `event.create('item_name')` or `event.create('item_name', 'type')`.
pub const CREATE_PATTERN: &'static str = r#"event\s*\.\s*create\s*\(\s*['"]([^'"]+)['"]\s*(?:,\s*['"][^'"]*['"]\s*)?\)"#;

/// `.displayName('...')` chained after a create.
pub const DISPLAY_NAME_PATTERN: &'static str = r#"\.displayName\s*\(\s*['"]([^'"]+)['"]\s*\)"#;

/// `.texture('namespace:item/path')` chained after a create.
pub const TEXTURE_PATTERN: &'static str = r#"\.texture\s*\(\s*['"]([^'"]+)['"]\s*\)"#;

/// The compiled patterns of KubeJS item registrations.
pub struct ScriptPatterns {
    pub create: Matcher,
    pub display_name: Matcher,
    pub texture: Matcher,
}

impl ScriptPatterns {
    /// The patterns are the registration patterns.
    pub open spec fn wf(&self) -> bool {
        &&& self.create.pattern() == CREATE_PATTERN@
        &&& self.display_name.pattern() == DISPLAY_NAME_PATTERN@
        &&& self.texture.pattern() == TEXTURE_PATTERN@
    }
}

/// Compiles the registration patterns; a pattern that fails to compile gives
/// its `Regex error: ...` message.
pub fn script_patterns() -> (r: Result<ScriptPatterns, String>)
    ensures
        r is Ok <==> regex_compiles(CREATE_PATTERN@) && regex_compiles(DISPLAY_NAME_PATTERN@)
            && regex_compiles(TEXTURE_PATTERN@),
        r matches Ok(p) ==> p.wf(),
        r matches Err(msg) ==> msg@.len() >= "Regex error: "@.len()
            && msg@.take("Regex error: "@.len() as int) == "Regex error: "@,
{
    let create = match compile_regex(CREATE_PATTERN) {
        Ok(m) => m,
        Err(e) => return Err(regex_error_message(&e)),
    };
    let display_name = match compile_regex(DISPLAY_NAME_PATTERN) {
        Ok(m) => m,
        Err(e) => return Err(regex_error_message(&e)),
    };
    let texture = match compile_regex(TEXTURE_PATTERN) {
        Ok(m) => m,
        Err(e) => return Err(regex_error_message(&e)),
    };
    Ok(ScriptPatterns { create, display_name, texture })
}

// ---------------------------------------------------------------------------
// Startup scripts
// ---------------------------------------------------------------------------

/// A script registers items when it mentions `registry` and `'item'` or `"item"`.
pub open spec fn registers_items_spec(content: Seq<char>) -> bool {
    seq_contains(content, "registry"@) && (seq_contains(content, "'item'"@) || seq_contains(content, "\"item\""@))
}

/// Whether a script holds an item registry block.
pub fn script_registers_items(content: &str) -> (r: bool)
    ensures
        r == registers_items_spec(content@),
{
    contains(content, "registry") && (contains(content, "'item'") || contains(content, "\"item\""))
}

/// The piece of `line` that the `k`th `event.create` match reads chained
/// calls from: from the match's start (the line's start for the first match)
/// to the next match's start (the line's end for the last match).
pub open spec fn match_piece(line: Seq<char>, ms: Seq<(nat, Option<Seq<char>>)>, k: int) -> Seq<char> {
    let lo = if k == 0 { 0 } else { ms[k].0 as int };
    let hi = if k + 1 < ms.len() { ms[k + 1].0 as int } else { line.len() as int };
    line.subrange(lo, hi)
}

/// The display name of item `name` whose chained calls are in `piece`: the
/// first `.displayName('...')` there, else the name in Title Case.
pub open spec fn display_name_spec(piece: Seq<char>, name: Seq<char>) -> Seq<char> {
    match regex_first_group(DISPLAY_NAME_PATTERN@, piece) {
        Some(d) => d,
        None => snake_to_title_spec(name),
    }
}

/// The items of the first `n` `event.create` matches of a line: name and
/// display name of each match whose name group took part.
pub open spec fn match_items(line: Seq<char>, ms: Seq<(nat, Option<Seq<char>>)>, n: nat) -> Seq<(Seq<char>, Seq<char>)>
    decreases n,
{
    if n == 0 {
        Seq::empty()
    } else {
        let before = match_items(line, ms, (n - 1) as nat);
        match ms[n - 1].1 {
            Some(name) => before.push((name, display_name_spec(match_piece(line, ms, n - 1), name))),
            None => before,
        }
    }
}

/// The KubeJS items registered on a line, one per `event.create` call, in
/// order.
pub open spec fn line_items_spec(line: Seq<char>) -> Seq<(Seq<char>, Seq<char>)> {
    let ms = regex_all_groups(CREATE_PATTERN@, line);
    match_items(line, ms, ms.len())
}

/// The items that the lines register, in order.
pub open spec fn script_items_spec(lines: Seq<Seq<char>>) -> Seq<(Seq<char>, Seq<char>)>
    decreases lines.len(),
{
    if lines.len() == 0 {
        Seq::empty()
    } else {
        script_items_spec(lines.drop_last()) + line_items_spec(lines.last())
    }
}

/// A KubeJS item as registered: id `kubejs:<name>`, no texture yet.
pub open spec fn kubejs_item_ok(item: ItemInfo, name: Seq<char>, display: Seq<char>) -> bool {
    &&& item.id@ == "kubejs:"@ + name
    &&& item.mod_id@ == "kubejs"@
    &&& item.name@ == name
    &&& item.display_name@ == display
    &&& item.texture_base64 is None
    &&& item.source == ModSource::KubeJs
}

/// Whether `items` are the KubeJS items of `spec`, in order.
pub open spec fn items_match(items: Seq<ItemInfo>, spec: Seq<(Seq<char>, Seq<char>)>) -> bool {
    &&& items.len() == spec.len()
    &&& forall|i: int| 0 <= i < items.len() ==> kubejs_item_ok(#[trigger] items[i], spec[i].0, spec[i].1)
}

/// The KubeJS item `kubejs:<name>` with a display name.
fn kubejs_item(name: String, display_name: String) -> (r: ItemInfo)
    ensures
        kubejs_item_ok(r, name@, display_name@),
{
    ItemInfo {
        id: concat2("kubejs:", name.as_str()),
        mod_id: to_owned_string("kubejs"),
        name,
        display_name,
        texture_base64: None,
        source: ModSource::KubeJs,
    }
}

/// Appends the items that one line registers.
fn push_line_items(items: &mut Vec<ItemInfo>, line: &str, patterns: &ScriptPatterns)
    requires
        patterns.wf(),
    ensures
        items_match(final(items)@.skip(old(items)@.len() as int), line_items_spec(line@)),
        final(items)@.len() >= old(items)@.len(),
        final(items)@.take(old(items)@.len() as int) == old(items)@,
{
    let ghost start = items@;
    let ms = all_groups(&patterns.create, line);
    let ghost msv = match_views(ms@);
    let chars = chars_of(line);
    let mut k: usize = 0;
    proof {
        assert(items@.skip(start.len() as int) =~= Seq::<ItemInfo>::empty());
        assert(items@.take(start.len() as int) =~= start);
    }
    while k < ms.len()
        invariant
            patterns.wf(),
            msv == match_views(ms@),
            msv == regex_all_groups(CREATE_PATTERN@, line@),
            chars@ == line@,
            forall|j: int| 0 <= j < ms@.len() ==> (#[trigger] ms@[j]).0 <= line@.len(),
            forall|a: int, b: int| 0 <= a < b < ms@.len() ==> (#[trigger] ms@[a]).0 <= (#[trigger] ms@[b]).0,
            k <= ms@.len(),
            items@.len() >= start.len(),
            items@.take(start.len() as int) == start,
            items_match(items@.skip(start.len() as int), match_items(line@, msv, k as nat)),
        decreases ms.len() - k,
    {
        let ghost before = items@;
        match &ms[k].1 {
            Some(name) => {
                let lo: usize = if k == 0 { 0 } else { ms[k].0 };
                let hi: usize = if k + 1 < ms.len() { ms[k + 1].0 } else { chars.len() };
                let piece = string_from(&chars, lo, hi);
                proof { assert(piece@ == match_piece(line@, msv, k as int)); }
                let display_name = match first_group(&patterns.display_name, piece.as_str()) {
                    Some(d) => d,
                    None => snake_to_title(name.as_str()),
                };
                let item = kubejs_item(copy_string(name), display_name);
                items.push(item);
                proof {
                    let sp = match_items(line@, msv, (k + 1) as nat);
                    assert(sp == match_items(line@, msv, k as nat).push((name@, display_name_spec(match_piece(line@, msv, k as int), name@))));
                    assert(items@.skip(start.len() as int) =~= before.skip(start.len() as int).push(item));
                    assert(items@.take(start.len() as int) =~= before.take(start.len() as int));
                    assert forall|i: int| 0 <= i < items@.skip(start.len() as int).len() implies kubejs_item_ok(
                        #[trigger] items@.skip(start.len() as int)[i],
                        sp[i].0,
                        sp[i].1,
                    ) by {
                        if i < before.skip(start.len() as int).len() {
                            assert(items@.skip(start.len() as int)[i] == before.skip(start.len() as int)[i]);
                        }
                    }
                }
            },
            None => {},
        }
        k += 1;
    }
}

/// The items a startup script registers: for each `event.create('name')` on
/// a line, an item `kubejs:name`, named by the `.displayName('...')` chained
/// in its piece of the line or else by the name in Title Case. A script
/// without an item registry block registers nothing.
pub fn parse_script_items(content: &str, patterns: &ScriptPatterns) -> (r: Vec<ItemInfo>)
    requires
        patterns.wf(),
    ensures
        !registers_items_spec(content@) ==> r@.len() == 0,
        registers_items_spec(content@) ==> items_match(r@, script_items_spec(lines_of(content@))),
{
    let mut items: Vec<ItemInfo> = Vec::new();
    if !script_registers_items(content) {
        return items;
    }
    let ls = lines(content);
    let ghost lv = lines_of(content@);
    let mut i: usize = 0;
    while i < ls.len()
        invariant
            patterns.wf(),
            ls@.len() == lv.len(),
            forall|k: int| 0 <= k < ls@.len() ==> #[trigger] ls@[k]@ == lv[k],
            i <= ls@.len(),
            items_match(items@, script_items_spec(lv.take(i as int))),
        decreases ls.len() - i,
    {
        let line = ls[i].as_str();
        let ghost before = items@;
        proof {
            assert(lv.take(i + 1).drop_last() =~= lv.take(i as int));
            assert(lv.take(i + 1).last() == line@);
        }
        push_line_items(&mut items, line, patterns);
        proof {
            let a = script_items_spec(lv.take(i as int));
            let b = line_items_spec(line@);
            assert(items@ =~= before + items@.skip(before.len() as int));
            assert forall|j: int| 0 <= j < items@.len() implies kubejs_item_ok(#[trigger] items@[j], (a + b)[j].0, (a + b)[j].1) by {
                if j < before.len() {
                    assert(items@[j] == items@.take(before.len() as int)[j]);
                } else {
                    assert(items@[j] == items@.skip(before.len() as int)[j - before.len()]);
                }
            }
        }
        i += 1;
    }
    proof { assert(lv.take(lv.len() as int) =~= lv); }
    items
}

// ---------------------------------------------------------------------------
// Overrides
// ---------------------------------------------------------------------------

/// The key of a texture override file: `namespace:sub/name`.
pub fn texture_override_key(namespace: &str, sub: &str, name: &str) -> (r: String)
    ensures
        r@ == namespace@ + ":"@ + sub@ + "/"@ + name@,
{
    let mut r = concat3(namespace, ":", sub);
    r.append("/");
    r.append(name);
    r
}

/// Byte vectors that fit in memory, as every vector does.
pub open spec fn store_sizes_ok(store: &TextureStore) -> bool {
    forall|i: int| 0 <= i < store.entries@.len() ==> (#[trigger] store.entries@[i]).1@.len() <= isize::MAX
}

/// The texture an override store gives for `key`, as a data URI.
pub open spec fn override_uri(overrides: Map<Seq<char>, Seq<u8>>, key: Seq<char>) -> Option<Seq<char>> {
    if overrides.contains_key(key) {
        Some(png_uri_spec(overrides[key]))
    } else {
        None
    }
}

/// Gives each KubeJS item the texture of override `<mod_id>:item/<name>`,
/// when there is one.
pub fn apply_kubejs_textures(items: &mut Vec<ItemInfo>, overrides: &TextureStore)
    requires
        store_sizes_ok(overrides),
    ensures
        final(items)@.len() == old(items)@.len(),
        forall|i: int| 0 <= i < final(items)@.len() ==> {
            let before = #[trigger] old(items)@[i];
            let after = final(items)@[i];
            let key = before.mod_id@ + ":item/"@ + before.name@;
            &&& after.id == before.id
            &&& after.mod_id == before.mod_id
            &&& after.name == before.name
            &&& after.display_name == before.display_name
            &&& after.source == before.source
            &&& match override_uri(overrides@, key) {
                Some(u) => after.texture_base64 matches Some(t) && t@ == u,
                None => after.texture_base64 == before.texture_base64,
            }
        },
{
    let ghost start = items@;
    let mut i: usize = 0;
    while i < items.len()
        invariant
            store_sizes_ok(overrides),
            items@.len() == start.len(),
            i <= items@.len(),
            forall|k: int| i <= k < items@.len() ==> items@[k] == start[k],
            forall|k: int| 0 <= k < i ==> {
                let before = #[trigger] start[k];
                let after = items@[k];
                let key = before.mod_id@ + ":item/"@ + before.name@;
                &&& after.id == before.id
                &&& after.mod_id == before.mod_id
                &&& after.name == before.name
                &&& after.display_name == before.display_name
                &&& after.source == before.source
                &&& match override_uri(overrides@, key) {
                    Some(u) => after.texture_base64 matches Some(t) && t@ == u,
                    None => after.texture_base64 == before.texture_base64,
                }
            },
        decreases items.len() - i,
    {
        let key = concat3(items[i].mod_id.as_str(), ":item/", items[i].name.as_str());
        if let Some(j) = find_key(&overrides.entries, key.as_str()) {
            let uri = png_data_uri(&overrides.entries[j].1);
            let mut item = items.remove(i);
            item.texture_base64 = Some(uri);
            items.insert(i, item);
        }
        i += 1;
    }
}

} // verus!
