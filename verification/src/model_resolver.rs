//! Walking Minecraft model JSONs to find the textures that draw an item.
//!
//! A model names a parent model and a map of texture variables. The textures
//! of a model are those of its parent chain, overlaid from the root down, with
//! `#name` references replaced by the texture that `name` holds.
use vstd::prelude::*;
use crate::assoc::{assoc_view, find_key, lemma_assoc_empty, lemma_assoc_finite, lemma_assoc_push, lemma_assoc_push_any, lemma_assoc_update};
use crate::text::{concat2, concat3, chars_of, find_char, first_index_of, seq_starts_with, starts_with, str_eq, string_from, strip_prefix, to_owned_string};

verus! {

broadcast use vstd::seq_lib::group_seq_properties;

// ---------------------------------------------------------------------------
// Data
// ---------------------------------------------------------------------------

/// Texture variables of a model: variable name to texture reference,
/// e.g. `layer0` to `minecraft:item/diamond`.
pub struct TextureVars {
    pub entries: Vec<(String, String)>,
}

impl View for TextureVars {
    type V = Map<Seq<char>, Seq<char>>;

    open spec fn view(&self) -> Map<Seq<char>, Seq<char>> {
        assoc_view(self.entries@)
    }
}

/// The part of a model JSON that texture resolution reads.
pub struct ModelJson {
    /// Parent model path, e.g. `minecraft:item/generated` or `block/cube_all`.
    pub parent: Option<String>,
    /// Texture variables of this model.
    pub textures: Option<TextureVars>,
}

/// Mathematical view of a model.
pub struct ModelView {
    pub parent: Option<Seq<char>>,
    pub textures: Option<Map<Seq<char>, Seq<char>>>,
}

impl View for ModelJson {
    type V = ModelView;

    open spec fn view(&self) -> ModelView {
        ModelView {
            parent: match self.parent {
                Some(p) => Some(p@),
                None => None,
            },
            textures: match self.textures {
                Some(t) => Some(t@),
                None => None,
            },
        }
    }
}

/// All models of one namespace, keyed by model path (e.g. `item/diamond_sword`).
pub struct ModelRegistry {
    pub entries: Vec<(String, ModelJson)>,
}

impl View for ModelRegistry {
    type V = Map<Seq<char>, ModelView>;

    open spec fn view(&self) -> Map<Seq<char>, ModelView> {
        assoc_view(self.entries@)
    }
}

/// Model registries of several namespaces, keyed by namespace (e.g. `minecraft`).
pub struct MultiNamespaceModels {
    pub entries: Vec<(String, ModelRegistry)>,
}

/// The view of all namespaces' models: namespace, then model path.
pub type ModelsView = Map<Seq<char>, Map<Seq<char>, ModelView>>;

impl View for MultiNamespaceModels {
    type V = ModelsView;

    open spec fn view(&self) -> ModelsView {
        assoc_view(self.entries@)
    }
}

/// The texture information found for an item.
pub enum ResolvedTexture {
    /// A flat sprite item: this single texture.
    Sprite(String),
    /// A block drawn as an isometric composite of three faces.
    BlockIsometric { top: String, front: String, right: String },
}

/// Mathematical view of a resolved texture.
pub enum ResolvedView {
    Sprite(Seq<char>),
    Block { top: Seq<char>, front: Seq<char>, right: Seq<char> },
}

impl View for ResolvedTexture {
    type V = ResolvedView;

    open spec fn view(&self) -> ResolvedView {
        match self {
            ResolvedTexture::Sprite(t) => ResolvedView::Sprite(t@),
            ResolvedTexture::BlockIsometric { top, front, right } => ResolvedView::Block {
                top: top@,
                front: front@,
                right: right@,
            },
        }
    }
}

/// View of an optional resolved texture.
pub open spec fn resolved_view(r: Option<ResolvedTexture>) -> Option<ResolvedView> {
    match r {
        Some(t) => Some(t@),
        None => None,
    }
}

// ---------------------------------------------------------------------------
// Specifications
// ---------------------------------------------------------------------------

/// The recursion bound on parent chains.
pub open spec fn max_depth() -> nat {
    20
}

/// A texture value that refers to another variable (`#name`).
pub open spec fn is_var_ref(v: Seq<char>) -> bool {
    v.len() > 0 && v[0] == '#'
}

/// A model path without a leading `minecraft:`.
pub open spec fn norm_model_path(p: Seq<char>) -> Seq<char> {
    if seq_starts_with(p, "minecraft:"@) {
        p.skip("minecraft:"@.len() as int)
    } else {
        p
    }
}

/// A texture reference split at its first `:` into namespace and path;
/// without a `:` the namespace is `minecraft`.
pub open spec fn split_texture_ref(t: Seq<char>) -> (Seq<char>, Seq<char>) {
    match first_index_of(t, ':') {
        Some(i) => (t.take(i), t.skip(i + 1)),
        None => ("minecraft"@, t),
    }
}

/// Namespace and path of the model that `parent` names, from a model in `ns`.
pub open spec fn parent_target(parent: Seq<char>, ns: Seq<char>) -> (Seq<char>, Seq<char>) {
    if first_index_of(parent, ':') is Some {
        split_texture_ref(parent)
    } else {
        (ns, norm_model_path(parent))
    }
}

/// The model at `path` in namespace `ns`, if there is one.
pub open spec fn model_at(models: ModelsView, ns: Seq<char>, path: Seq<char>) -> Option<ModelView> {
    if models.contains_key(ns) && models[ns].contains_key(path) {
        Some(models[ns][path])
    } else {
        None
    }
}

/// Where `v` leads when its `#name` references are followed through `m`,
/// taking at most `fuel` steps: each step replaces a reference by what its
/// variable holds.
pub open spec fn follow_ref(m: Map<Seq<char>, Seq<char>>, v: Seq<char>, fuel: nat) -> Seq<char>
    decreases fuel,
{
    if fuel > 0 && is_var_ref(v) && m.contains_key(v.drop_first()) {
        follow_ref(m, m[v.drop_first()], (fuel - 1) as nat)
    } else {
        v
    }
}

/// A value with its `#name` references followed through `m` to a plain
/// texture. A chain that reaches a plain texture visits no variable twice, so
/// as many steps as `m` has variables reach its end; a chain that runs into
/// an unknown variable or a cycle leaves the value as it is.
pub open spec fn resolve_ref(m: Map<Seq<char>, Seq<char>>, v: Seq<char>) -> Seq<char> {
    let t = follow_ref(m, v, m.dom().len());
    if is_var_ref(t) {
        v
    } else {
        t
    }
}

/// Every value of `m` with its references resolved through `m`.
pub open spec fn resolve_refs(m: Map<Seq<char>, Seq<char>>) -> Map<Seq<char>, Seq<char>> {
    Map::new(|k: Seq<char>| m.contains_key(k), |k: Seq<char>| resolve_ref(m, m[k]))
}

/// The texture variables of the model at `path` in `ns`: its parent's
/// (resolved) variables overlaid with its own, then every reference resolved.
/// Unknown models and chains deeper than the bound give no variables.
pub open spec fn texture_vars_spec(
    models: ModelsView,
    path: Seq<char>,
    ns: Seq<char>,
    depth: nat,
) -> Map<Seq<char>, Seq<char>>
    decreases max_depth() + 1 - depth,
{
    if depth > max_depth() {
        Map::empty()
    } else {
        match model_at(models, ns, path) {
            None => Map::empty(),
            Some(model) => {
                let base = match model.parent {
                    Some(p) => texture_vars_spec(
                        models,
                        parent_target(p, ns).1,
                        parent_target(p, ns).0,
                        depth + 1,
                    ),
                    None => Map::empty(),
                };
                let merged = match model.textures {
                    Some(t) => base.union_prefer_right(t),
                    None => base,
                };
                resolve_refs(merged)
            },
        }
    }
}

/// Built-in parents of flat sprite items.
pub open spec fn is_sprite_parent(s: Seq<char>) -> bool {
    ||| s == "item/generated"@
    ||| s == "minecraft:item/generated"@
    ||| s == "builtin/generated"@
    ||| s == "minecraft:builtin/generated"@
    ||| s == "item/handheld"@
    ||| s == "minecraft:item/handheld"@
    ||| s == "item/handheld_rod"@
    ||| s == "minecraft:item/handheld_rod"@
}

/// Well-known parents of full-cube block models.
pub open spec fn is_block_parent(s: Seq<char>) -> bool {
    ||| s == "block/cube_all"@
    ||| s == "minecraft:block/cube_all"@
    ||| s == "block/cube_column"@
    ||| s == "minecraft:block/cube_column"@
    ||| s == "block/cube_column_horizontal"@
    ||| s == "minecraft:block/cube_column_horizontal"@
    ||| s == "block/cube_bottom_top"@
    ||| s == "minecraft:block/cube_bottom_top"@
    ||| s == "block/cube"@
    ||| s == "minecraft:block/cube"@
    ||| s == "block/orientable"@
    ||| s == "minecraft:block/orientable"@
    ||| s == "block/orientable_vertical"@
    ||| s == "minecraft:block/orientable_vertical"@
}

/// `ns:path`.
pub open spec fn qualified(ns: Seq<char>, path: Seq<char>) -> Seq<char> {
    ns + ":"@ + path
}

/// Whether the model at `path` in `ns`, or a model on its parent chain, is a
/// flat sprite model.
pub open spec fn is_sprite_spec(models: ModelsView, path: Seq<char>, ns: Seq<char>, depth: nat) -> bool
    decreases max_depth() + 1 - depth,
{
    if depth > max_depth() {
        false
    } else if is_sprite_parent(qualified(ns, path)) || is_sprite_parent(path) {
        true
    } else {
        match model_at(models, ns, path) {
            None => false,
            Some(model) => match model.parent {
                None => false,
                Some(p) => if is_sprite_parent(p) || is_sprite_parent(norm_model_path(p)) {
                    true
                } else {
                    is_sprite_spec(models, parent_target(p, ns).1, parent_target(p, ns).0, depth + 1)
                },
            },
        }
    }
}

/// The well-known block parent reached on the parent chain of the model at
/// `path` in `ns`, without a leading `minecraft:`.
pub open spec fn block_parent_spec(
    models: ModelsView,
    path: Seq<char>,
    ns: Seq<char>,
    depth: nat,
) -> Option<Seq<char>>
    decreases max_depth() + 1 - depth,
{
    if depth > max_depth() {
        None
    } else if is_block_parent(qualified(ns, path)) || is_block_parent(path) {
        Some(norm_model_path(path))
    } else {
        match model_at(models, ns, path) {
            None => None,
            Some(model) => match model.parent {
                None => None,
                Some(p) => if is_block_parent(p) || is_block_parent(norm_model_path(p)) {
                    Some(norm_model_path(p))
                } else {
                    block_parent_spec(
                        models,
                        parent_target(p, ns).1,
                        parent_target(p, ns).0,
                        depth + 1,
                    )
                },
            },
        }
    }
}

/// The value at `k`, if any.
pub open spec fn get_opt(m: Map<Seq<char>, Seq<char>>, k: Seq<char>) -> Option<Seq<char>> {
    if m.contains_key(k) {
        Some(m[k])
    } else {
        None
    }
}

/// `a`, or `b` when `a` is absent.
pub open spec fn or_opt(a: Option<Seq<char>>, b: Option<Seq<char>>) -> Option<Seq<char>> {
    if a is Some {
        a
    } else {
        b
    }
}

/// The value of the first key of `keys` that `m` holds with a plain
/// (non-reference) texture.
pub open spec fn first_plain(m: Map<Seq<char>, Seq<char>>, keys: Seq<Seq<char>>) -> Option<Seq<char>>
    decreases keys.len(),
{
    if keys.len() == 0 {
        None
    } else if m.contains_key(keys[0]) && !is_var_ref(m[keys[0]]) {
        Some(m[keys[0]])
    } else {
        first_plain(m, keys.drop_first())
    }
}

/// Variable names tried for the top face.
pub open spec fn top_keys() -> Seq<Seq<char>> {
    seq!["top"@, "up"@, "end"@, "all"@]
}

/// Variable names tried for the side faces.
pub open spec fn side_keys() -> Seq<Seq<char>> {
    seq!["side"@, "front"@, "south"@, "north"@, "east"@, "west"@, "all"@]
}

/// Faces from common variable names: the side face (or the top when there
/// is no side) on front and right, the top face (or the side) on top.
pub open spec fn any_block_spec(m: Map<Seq<char>, Seq<char>>) -> Option<ResolvedView> {
    let top = first_plain(m, top_keys());
    let side = first_plain(m, side_keys());
    match or_opt(side, top) {
        None => None,
        Some(s) => {
            let t = match top {
                Some(t) => t,
                None => s,
            };
            Some(ResolvedView::Block { top: t, front: s, right: s })
        },
    }
}

/// Faces of a block model from its well-known parent and its variables.
pub open spec fn block_textures_spec(bp: Seq<char>, m: Map<Seq<char>, Seq<char>>) -> Option<ResolvedView> {
    if bp == "block/cube_all"@ {
        match get_opt(m, "all"@) {
            Some(t) => Some(ResolvedView::Block { top: t, front: t, right: t }),
            None => None,
        }
    } else if bp == "block/cube_column"@ || bp == "block/cube_column_horizontal"@ {
        let side = get_opt(m, "side"@);
        let end = get_opt(m, "end"@);
        match (or_opt(side, end), or_opt(end, side)) {
            (Some(s), Some(e)) => Some(ResolvedView::Block { top: e, front: s, right: s }),
            _ => None,
        }
    } else if bp == "block/cube_bottom_top"@ {
        let top = get_opt(m, "top"@);
        let side = get_opt(m, "side"@);
        match (or_opt(top, side), or_opt(side, top)) {
            (Some(t), Some(s)) => Some(ResolvedView::Block { top: t, front: s, right: s }),
            _ => None,
        }
    } else if bp == "block/cube"@ {
        let particle = get_opt(m, "particle"@);
        let t = or_opt(get_opt(m, "up"@), particle);
        let f = or_opt(get_opt(m, "south"@), or_opt(get_opt(m, "north"@), particle));
        let r = or_opt(get_opt(m, "east"@), or_opt(get_opt(m, "west"@), particle));
        let t = match t { Some(x) => x, None => Seq::<char>::empty() };
        let f = match f { Some(x) => x, None => Seq::<char>::empty() };
        let r = match r { Some(x) => x, None => Seq::<char>::empty() };
        if t.len() == 0 {
            None
        } else {
            Some(ResolvedView::Block { top: t, front: f, right: r })
        }
    } else if bp == "block/orientable"@ || bp == "block/orientable_vertical"@ {
        let top = get_opt(m, "top"@);
        let front = get_opt(m, "front"@);
        let side = get_opt(m, "side"@);
        match (or_opt(top, or_opt(side, front)), or_opt(front, side), or_opt(side, front)) {
            (Some(t), Some(f), Some(s)) => Some(ResolvedView::Block { top: t, front: f, right: s }),
            _ => None,
        }
    } else {
        any_block_spec(m)
    }
}

// ---------------------------------------------------------------------------
// Paths and references
// ---------------------------------------------------------------------------

/// A model path without a leading `minecraft:` prefix,
/// e.g. `minecraft:block/stone` becomes `block/stone`.
pub fn normalize_model_path(path: &str) -> (r: String)
    ensures
        r@ == norm_model_path(path@),
{
    match strip_prefix(path, "minecraft:") {
        Some(rest) => rest,
        None => to_owned_string(path),
    }
}

/// A texture reference split into namespace and path at its first `:`;
/// a reference without one is in the `minecraft` namespace.
pub fn normalize_texture_ref(tex: &str) -> (r: (String, String))
    ensures
        (r.0@, r.1@) == split_texture_ref(tex@),
{
    let v = chars_of(tex);
    match find_char(&v, ':') {
        Some(i) => (string_from(&v, 0, i), string_from(&v, i + 1, v.len())),
        None => (to_owned_string("minecraft"), to_owned_string(tex)),
    }
}

/// Whether a string holds a `:`.
fn has_colon(s: &str) -> (r: bool)
    ensures
        r == (first_index_of(s@, ':') is Some),
{
    let v = chars_of(s);
    find_char(&v, ':').is_some()
}

/// Namespace and path of the model that `parent` names.
fn parent_location(parent: &str, namespace: &str) -> (r: (String, String))
    ensures
        (r.0@, r.1@) == parent_target(parent@, namespace@),
{
    if has_colon(parent) {
        normalize_texture_ref(parent)
    } else {
        (to_owned_string(namespace), normalize_model_path(parent))
    }
}

/// Whether a texture value is a `#name` reference.
fn is_reference(v: &str) -> (r: bool)
    ensures
        r == is_var_ref(v@),
{
    let c = chars_of(v);
    c.len() > 0 && c[0] == '#'
}

/// The model at `path` in `namespace`.
fn find_model<'a>(models: &'a MultiNamespaceModels, namespace: &str, path: &str) -> (r: Option<&'a ModelJson>)
    ensures
        match r {
            Some(m) => model_at(models@, namespace@, path@) == Some(m@),
            None => model_at(models@, namespace@, path@) is None,
        },
{
    match find_key(&models.entries, namespace) {
        None => None,
        Some(ri) => {
            let registry = &models.entries[ri].1;
            match find_key(&registry.entries, path) {
                None => None,
                Some(mi) => Some(&registry.entries[mi].1),
            }
        },
    }
}

// ---------------------------------------------------------------------------
// Texture variables
// ---------------------------------------------------------------------------

/// Sets variable `k` to `v`, replacing an earlier value.
fn vars_insert(vars: &mut Vec<(String, String)>, k: String, v: String)
    ensures
        assoc_view(final(vars)@) == assoc_view(old(vars)@).insert(k@, v@),
{
    match find_key(vars, k.as_str()) {
        Some(i) => {
            proof { lemma_assoc_update(vars@, i as int, (k, v)); }
            vars[i] = (k, v);
        },
        None => {
            proof { lemma_assoc_push(vars@, (k, v)); }
            vars.push((k, v));
        },
    }
}

/// A copy of a string.
fn copy_string(s: &String) -> (r: String)
    ensures
        r@ == s@,
{
    s.clone()
}

/// `base` overlaid with the variables of `top`.
fn overlay(base: &mut Vec<(String, String)>, top: &TextureVars)
    ensures
        assoc_view(final(base)@) == assoc_view(old(base)@).union_prefer_right(top@),
{
    let ghost start = assoc_view(base@);
    let n = top.entries.len();
    let mut j = n;
    proof {
        assert(top.entries@.skip(n as int) =~= Seq::<(String, String)>::empty());
        assert(start.union_prefer_right(assoc_view(top.entries@.skip(n as int))) =~= start);
    }
    while j > 0
        invariant
            n == top.entries@.len(),
            j <= n,
            assoc_view(base@) == start.union_prefer_right(assoc_view(top.entries@.skip(j as int))),
        decreases j,
    {
        j -= 1;
        let k = copy_string(&top.entries[j].0);
        let v = copy_string(&top.entries[j].1);
        vars_insert(base, k, v);
        proof {
            let s = top.entries@;
            assert(s.skip(j as int).drop_first() =~= s.skip(j + 1));
            assert(s.skip(j as int)[0] == s[j as int]);
            assert(start.union_prefer_right(assoc_view(s.skip(j as int))) =~= start.union_prefer_right(
                assoc_view(s.skip(j + 1)),
            ).insert(s[j as int].0@, s[j as int].1@));
        }
    }
    proof {
        assert(top.entries@.skip(0) =~= top.entries@);
    }
}

/// The entries of `m` that come first with their key: the same map, with
/// one entry per variable.
fn first_entries(m: &Vec<(String, String)>) -> (d: Vec<(String, String)>)
    ensures
        assoc_view(d@) == assoc_view(m@),
        d@.len() == assoc_view(d@).dom().len(),
{
    let mut d: Vec<(String, String)> = Vec::new();
    let mut i: usize = 0;
    proof {
        assert(m@.take(0) =~= Seq::<(String, String)>::empty());
        assert(assoc_view(d@).dom() =~= Set::<Seq<char>>::empty());
    }
    while i < m.len()
        invariant
            i <= m@.len(),
            assoc_view(d@) == assoc_view(m@.take(i as int)),
            d@.len() == assoc_view(d@).dom().len(),
        decreases m.len() - i,
    {
        proof {
            assert(m@.take(i + 1) =~= m@.take(i as int).push(m@[i as int]));
            lemma_assoc_push_any(m@.take(i as int), m@[i as int]);
            lemma_assoc_finite(d@);
        }
        match find_key(&d, m[i].0.as_str()) {
            Some(_) => {},
            None => {
                let e = (copy_string(&m[i].0), copy_string(&m[i].1));
                let ghost before = d@;
                proof { lemma_assoc_push(d@, e); }
                d.push(e);
                proof {
                    assert(assoc_view(d@) =~= assoc_view(m@.take(i + 1)));
                    assert(assoc_view(d@).dom() =~= assoc_view(before).dom().insert(e.0@));
                    assert(!assoc_view(before).dom().contains(e.0@));
                }
            },
        }
        i += 1;
    }
    proof { assert(m@.take(m@.len() as int) =~= m@); }
    d
}

/// `v` with its references followed through `d`, at most `fuel` steps.
fn follow_value(d: &Vec<(String, String)>, v: &String, fuel: usize) -> (r: String)
    ensures
        r@ == follow_ref(assoc_view(d@), v@, fuel as nat),
{
    let ghost mv = assoc_view(d@);
    let mut cur = copy_string(v);
    let mut left = fuel;
    while left > 0
        invariant
            mv == assoc_view(d@),
            follow_ref(mv, v@, fuel as nat) == follow_ref(mv, cur@, left as nat),
        decreases left,
    {
        if !is_reference(cur.as_str()) {
            return cur;
        }
        let c = chars_of(cur.as_str());
        let name = string_from(&c, 1, c.len());
        proof { assert(name@ == cur@.drop_first()); }
        match find_key(d, name.as_str()) {
            None => {
                return cur;
            },
            Some(t) => {
                cur = copy_string(&d[t].1);
                left -= 1;
            },
        }
    }
    cur
}

/// `m` with every value's references resolved through `m`.
fn resolve_all_refs(m: &Vec<(String, String)>) -> (r: Vec<(String, String)>)
    ensures
        assoc_view(r@) == resolve_refs(assoc_view(m@)),
{
    let ghost mv = assoc_view(m@);
    let d = first_entries(m);
    let fuel = d.len();
    let mut out: Vec<(String, String)> = Vec::new();
    let mut i: usize = 0;
    while i < m.len()
        invariant
            mv == assoc_view(m@),
            mv == assoc_view(d@),
            fuel as nat == mv.dom().len(),
            i <= m@.len(),
            out@.len() == i,
            forall|j: int| 0 <= j < i ==> (#[trigger] out@[j]).0@ == m@[j].0@ && out@[j].1@ == resolve_ref(mv, m@[j].1@),
        decreases m.len() - i,
    {
        let key = copy_string(&m[i].0);
        let value = &m[i].1;
        let target = follow_value(&d, value, fuel);
        let resolved = if is_reference(target.as_str()) {
            copy_string(value)
        } else {
            target
        };
        out.push((key, resolved));
        i += 1;
    }
    proof { lemma_assoc_map_values(m@, out@, mv); }
    out
}

/// Entries with the same keys, whose values are resolved against `mv`,
/// stand for the resolved map.
proof fn lemma_assoc_map_values(s: Seq<(String, String)>, t: Seq<(String, String)>, mv: Map<Seq<char>, Seq<char>>)
    requires
        s.len() == t.len(),
        forall|j: int| 0 <= j < s.len() ==> (#[trigger] t[j]).0@ == s[j].0@ && t[j].1@ == resolve_ref(mv, s[j].1@),
    ensures
        assoc_view(t) == Map::new(
            |k: Seq<char>| assoc_view(s).contains_key(k),
            |k: Seq<char>| resolve_ref(mv, assoc_view(s)[k]),
        ),
    decreases s.len(),
{
    if s.len() == 0 {
        assert(assoc_view(t) =~= Map::new(
            |k: Seq<char>| assoc_view(s).contains_key(k),
            |k: Seq<char>| resolve_ref(mv, assoc_view(s)[k]),
        ));
    } else {
        lemma_assoc_map_values(s.drop_first(), t.drop_first(), mv);
        assert(t[0].0@ == s[0].0@);
        assert(assoc_view(t) =~= Map::new(
            |k: Seq<char>| assoc_view(s).contains_key(k),
            |k: Seq<char>| resolve_ref(mv, assoc_view(s)[k]),
        ));
    }
}

/// An empty variable list.
fn no_vars() -> (r: TextureVars)
    ensures
        r@ == Map::<Seq<char>, Seq<char>>::empty(),
{
    let r = TextureVars { entries: Vec::new() };
    proof { assert(r@ =~= Map::<Seq<char>, Seq<char>>::empty()); }
    r
}

/// All texture variables of the model at `model_path` in `namespace`, with
/// the parent chain walked (at most twenty levels deep from `depth`).
pub fn resolve_texture_vars(
    model_path: &str,
    models: &MultiNamespaceModels,
    namespace: &str,
    depth: u32,
) -> (r: TextureVars)
    ensures
        r@ == texture_vars_spec(models@, model_path@, namespace@, depth as nat),
    decreases max_depth() + 1 - depth,
{
    if depth > 20 {
        return no_vars();
    }
    let model = match find_model(models, namespace, model_path) {
        Some(m) => m,
        None => return no_vars(),
    };
    let mut textures = match &model.parent {
        Some(parent) => {
            let (pns, ppath) = parent_location(parent.as_str(), namespace);
            let base = resolve_texture_vars(ppath.as_str(), models, pns.as_str(), depth + 1);
            base.entries
        },
        None => no_vars().entries,
    };
    match &model.textures {
        Some(own) => overlay(&mut textures, own),
        None => {},
    }
    let resolved = resolve_all_refs(&textures);
    proof {
        let merged = assoc_view(textures@);
        assert(resolve_refs(merged) =~= Map::new(
            |k: Seq<char>| merged.contains_key(k),
            |k: Seq<char>| resolve_ref(merged, merged[k]),
        ));
    }
    TextureVars { entries: resolved }
}

// ---------------------------------------------------------------------------
// Model kinds
// ---------------------------------------------------------------------------

/// Whether `s` names a built-in sprite parent.
fn sprite_parent(s: &str) -> (r: bool)
    ensures
        r == is_sprite_parent(s@),
{
    str_eq(s, "item/generated") || str_eq(s, "minecraft:item/generated")
        || str_eq(s, "builtin/generated") || str_eq(s, "minecraft:builtin/generated")
        || str_eq(s, "item/handheld") || str_eq(s, "minecraft:item/handheld")
        || str_eq(s, "item/handheld_rod") || str_eq(s, "minecraft:item/handheld_rod")
}

/// Whether `s` names a well-known block parent.
fn block_parent(s: &str) -> (r: bool)
    ensures
        r == is_block_parent(s@),
{
    str_eq(s, "block/cube_all") || str_eq(s, "minecraft:block/cube_all")
        || str_eq(s, "block/cube_column") || str_eq(s, "minecraft:block/cube_column")
        || str_eq(s, "block/cube_column_horizontal")
        || str_eq(s, "minecraft:block/cube_column_horizontal")
        || str_eq(s, "block/cube_bottom_top") || str_eq(s, "minecraft:block/cube_bottom_top")
        || str_eq(s, "block/cube") || str_eq(s, "minecraft:block/cube")
        || str_eq(s, "block/orientable") || str_eq(s, "minecraft:block/orientable")
        || str_eq(s, "block/orientable_vertical")
        || str_eq(s, "minecraft:block/orientable_vertical")
}

/// Whether the model at `model_path` in `namespace`, or one on its parent
/// chain, is a flat sprite model.
pub fn is_sprite_model(model_path: &str, models: &MultiNamespaceModels, namespace: &str, depth: u32) -> (r: bool)
    ensures
        r == is_sprite_spec(models@, model_path@, namespace@, depth as nat),
    decreases max_depth() + 1 - depth,
{
    if depth > 20 {
        return false;
    }
    let check_path = concat3(namespace, ":", model_path);
    if sprite_parent(check_path.as_str()) || sprite_parent(model_path) {
        return true;
    }
    let model = match find_model(models, namespace, model_path) {
        Some(m) => m,
        None => return false,
    };
    match &model.parent {
        Some(parent) => {
            let norm = normalize_model_path(parent.as_str());
            if sprite_parent(parent.as_str()) || sprite_parent(norm.as_str()) {
                return true;
            }
            let (pns, ppath) = parent_location(parent.as_str(), namespace);
            is_sprite_model(ppath.as_str(), models, pns.as_str(), depth + 1)
        },
        None => false,
    }
}

/// The well-known block parent on the parent chain of the model at
/// `model_path` in `namespace`, without a leading `minecraft:`.
pub fn detect_block_parent(
    model_path: &str,
    models: &MultiNamespaceModels,
    namespace: &str,
    depth: u32,
) -> (r: Option<String>)
    ensures
        match r {
            Some(p) => block_parent_spec(models@, model_path@, namespace@, depth as nat) == Some(p@),
            None => block_parent_spec(models@, model_path@, namespace@, depth as nat) is None,
        },
    decreases max_depth() + 1 - depth,
{
    if depth > 20 {
        return None;
    }
    let check_path = concat3(namespace, ":", model_path);
    if block_parent(check_path.as_str()) || block_parent(model_path) {
        return Some(normalize_model_path(model_path));
    }
    let model = match find_model(models, namespace, model_path) {
        Some(m) => m,
        None => return None,
    };
    match &model.parent {
        Some(parent) => {
            let norm = normalize_model_path(parent.as_str());
            if block_parent(parent.as_str()) || block_parent(norm.as_str()) {
                return Some(norm);
            }
            let (pns, ppath) = parent_location(parent.as_str(), namespace);
            detect_block_parent(ppath.as_str(), models, pns.as_str(), depth + 1)
        },
        None => None,
    }
}

// ---------------------------------------------------------------------------
// Faces
// ---------------------------------------------------------------------------

/// The value of variable `k`, if present.
fn get_var(m: &TextureVars, k: &str) -> (r: Option<String>)
    ensures
        match r {
            Some(v) => get_opt(m@, k@) == Some(v@),
            None => get_opt(m@, k@) is None,
        },
{
    match find_key(&m.entries, k) {
        Some(i) => Some(copy_string(&m.entries[i].1)),
        None => None,
    }
}

/// `a`, or `b` when `a` is absent.
fn or_else(a: Option<String>, b: Option<String>) -> (r: Option<String>)
    ensures
        opt_view(r) == or_opt(opt_view(a), opt_view(b)),
{
    match a {
        Some(x) => Some(x),
        None => b,
    }
}

/// View of an optional string.
pub open spec fn opt_view(o: Option<String>) -> Option<Seq<char>> {
    match o {
        Some(s) => Some(s@),
        None => None,
    }
}

/// The value of the first of `keys` that `m` holds with a plain texture.
fn first_plain_var(m: &TextureVars, keys: &[&str]) -> (r: Option<String>)
    ensures
        opt_view(r) == first_plain(m@, keys@.map_values(|k: &str| k@)),
{
    let ghost ks = keys@.map_values(|k: &str| k@);
    let mut i: usize = 0;
    while i < keys.len()
        invariant
            ks == keys@.map_values(|k: &str| k@),
            i <= keys@.len(),
            first_plain(m@, ks) == first_plain(m@, ks.skip(i as int)),
        decreases keys.len() - i,
    {
        proof {
            assert(ks.skip(i as int).drop_first() =~= ks.skip(i + 1));
            assert(ks.skip(i as int)[0] == keys@[i as int]@);
        }
        match find_key(&m.entries, keys[i]) {
            Some(t) => {
                if !is_reference(m.entries[t].1.as_str()) {
                    return Some(copy_string(&m.entries[t].1));
                }
            },
            None => {},
        }
        i += 1;
    }
    proof { assert(ks.skip(keys@.len() as int) =~= Seq::<Seq<char>>::empty()); }
    None
}

/// Block faces from common texture variable names.
pub fn try_extract_any_block_texture(textures: &TextureVars) -> (r: Option<ResolvedTexture>)
    ensures
        resolved_view(r) == any_block_spec(textures@),
{
    let top_names: [&str; 4] = ["top", "up", "end", "all"];
    let side_names: [&str; 7] = ["side", "front", "south", "north", "east", "west", "all"];
    proof {
        assert(top_names@.map_values(|k: &str| k@) =~= top_keys());
        assert(side_names@.map_values(|k: &str| k@) =~= side_keys());
    }
    let top = first_plain_var(textures, &top_names);
    let side = first_plain_var(textures, &side_names);
    let s = match side {
        Some(x) => x,
        None => match &top {
            Some(t) => copy_string(t),
            None => return None,
        },
    };
    let t = match top {
        Some(x) => x,
        None => copy_string(&s),
    };
    let front = copy_string(&s);
    Some(ResolvedTexture::BlockIsometric { top: t, front, right: s })
}

/// A string holding `v`, or the empty string.
fn or_empty(v: Option<String>) -> (r: String)
    ensures
        r@ == match opt_view(v) {
            Some(x) => x,
            None => Seq::<char>::empty(),
        },
{
    match v {
        Some(x) => x,
        None => String::new(),
    }
}

/// Faces of a block model, given its well-known parent (without
/// `minecraft:`) and its resolved texture variables.
pub fn resolve_block_textures(block_parent: &str, textures: &TextureVars) -> (r: Option<ResolvedTexture>)
    ensures
        resolved_view(r) == block_textures_spec(block_parent@, textures@),
{
    if str_eq(block_parent, "block/cube_all") {
        match get_var(textures, "all") {
            Some(t) => {
                let a = copy_string(&t);
                let b = copy_string(&t);
                Some(ResolvedTexture::BlockIsometric { top: a, front: b, right: t })
            },
            None => None,
        }
    } else if str_eq(block_parent, "block/cube_column") || str_eq(block_parent, "block/cube_column_horizontal") {
        let side = get_var(textures, "side");
        let end = get_var(textures, "end");
        let side2 = clone_opt(&side);
        let end2 = clone_opt(&end);
        let s = or_else(side, end);
        let e = or_else(end2, side2);
        match (s, e) {
            (Some(s), Some(e)) => {
                let f = copy_string(&s);
                Some(ResolvedTexture::BlockIsometric { top: e, front: f, right: s })
            },
            _ => None,
        }
    } else if str_eq(block_parent, "block/cube_bottom_top") {
        let top = get_var(textures, "top");
        let side = get_var(textures, "side");
        let top2 = clone_opt(&top);
        let side2 = clone_opt(&side);
        let t = or_else(top, side);
        let s = or_else(side2, top2);
        match (t, s) {
            (Some(t), Some(s)) => {
                let f = copy_string(&s);
                Some(ResolvedTexture::BlockIsometric { top: t, front: f, right: s })
            },
            _ => None,
        }
    } else if str_eq(block_parent, "block/cube") {
        let particle = get_var(textures, "particle");
        let t = or_empty(or_else(get_var(textures, "up"), clone_opt(&particle)));
        let f = or_empty(or_else(get_var(textures, "south"), or_else(get_var(textures, "north"), clone_opt(&particle))));
        let r = or_empty(or_else(get_var(textures, "east"), or_else(get_var(textures, "west"), particle)));
        if t.unicode_len() == 0 {
            None
        } else {
            Some(ResolvedTexture::BlockIsometric { top: t, front: f, right: r })
        }
    } else if str_eq(block_parent, "block/orientable") || str_eq(block_parent, "block/orientable_vertical") {
        let top = get_var(textures, "top");
        let front = get_var(textures, "front");
        let side = get_var(textures, "side");
        let t = or_else(top, or_else(clone_opt(&side), clone_opt(&front)));
        let f = or_else(clone_opt(&front), clone_opt(&side));
        let s = or_else(side, front);
        match (t, f, s) {
            (Some(t), Some(f), Some(s)) => Some(ResolvedTexture::BlockIsometric { top: t, front: f, right: s }),
            _ => None,
        }
    } else {
        try_extract_any_block_texture(textures)
    }
}

/// A copy of an optional string.
fn clone_opt(o: &Option<String>) -> (r: Option<String>)
    ensures
        opt_view(r) == opt_view(*o),
{
    match o {
        Some(s) => Some(copy_string(s)),
        None => None,
    }
}

// ---------------------------------------------------------------------------
// Item textures
// ---------------------------------------------------------------------------

/// What texture resolution of one model may give. Most branches give one
/// answer; the last resort takes the first variable of a hash map, which may
/// be any of them, and gives its texture unless that is a reference.
pub enum TextureChoice {
    Exactly(Option<ResolvedView>),
    AnyVariable(Map<Seq<char>, Seq<char>>),
}

/// Whether `r` is an answer that `c` admits.
pub open spec fn choice_allows(c: TextureChoice, r: Option<ResolvedView>) -> bool {
    match c {
        TextureChoice::Exactly(x) => r == x,
        TextureChoice::AnyVariable(m) => any_variable_allows(m, r),
    }
}

/// Whether `r` is what taking some variable of `m` gives: a sprite of its
/// texture, or nothing when it holds a reference.
pub open spec fn any_variable_allows(m: Map<Seq<char>, Seq<char>>, r: Option<ResolvedView>) -> bool {
    if r is None {
        exists|k: Seq<char>| #[trigger] m.contains_key(k) && is_var_ref(m[k])
    } else {
        match r->0 {
            ResolvedView::Sprite(v) => exists|k: Seq<char>|
                #[trigger] m.contains_key(k) && m[k] == v && !is_var_ref(v),
            ResolvedView::Block { .. } => false,
        }
    }
}

/// The fallbacks when neither sprite nor block rules apply: `layer0`, then
/// `particle`, then `texture`, then any variable.
pub open spec fn last_resort(m: Map<Seq<char>, Seq<char>>) -> TextureChoice {
    if m.contains_key("layer0"@) {
        TextureChoice::Exactly(Some(ResolvedView::Sprite(m["layer0"@])))
    } else if m.contains_key("particle"@) {
        TextureChoice::Exactly(Some(ResolvedView::Sprite(m["particle"@])))
    } else if m.contains_key("texture"@) {
        TextureChoice::Exactly(Some(ResolvedView::Sprite(m["texture"@])))
    } else {
        TextureChoice::AnyVariable(m)
    }
}

/// Texture resolution of the model at `path` in `ns`: nothing without
/// variables; `layer0` of a sprite model; faces of a known block model;
/// faces of the block model an item model inherits from; else the fallbacks.
pub open spec fn from_model_choice(models: ModelsView, path: Seq<char>, ns: Seq<char>) -> TextureChoice {
    let textures = texture_vars_spec(models, path, ns, 0);
    if textures.dom() == Set::<Seq<char>>::empty() {
        TextureChoice::Exactly(None)
    } else if is_sprite_spec(models, path, ns, 0) && textures.contains_key("layer0"@) {
        TextureChoice::Exactly(Some(ResolvedView::Sprite(textures["layer0"@])))
    } else {
        match block_parent_spec(models, path, ns, 0) {
            Some(bp) => TextureChoice::Exactly(block_textures_spec(bp, textures)),
            None => match model_at(models, ns, path) {
                None => TextureChoice::Exactly(None),
                Some(model) => match model.parent {
                    Some(p) => if seq_starts_with(norm_model_path(p), "block/"@) {
                        let target = parent_target(p, ns);
                        let bt = texture_vars_spec(models, target.1, target.0, 0);
                        if bt.dom() == Set::<Seq<char>>::empty() {
                            last_resort(textures)
                        } else {
                            match block_parent_spec(models, target.1, target.0, 0) {
                                Some(bp2) => TextureChoice::Exactly(block_textures_spec(bp2, bt)),
                                None => TextureChoice::Exactly(any_block_spec(bt)),
                            }
                        }
                    } else {
                        last_resort(textures)
                    },
                    None => last_resort(textures),
                },
            },
        }
    }
}

/// The variables as a `TextureVars` view is empty exactly when the list is.
proof fn lemma_vars_empty(t: TextureVars)
    ensures
        (t.entries@.len() == 0) == (t@.dom() == Set::<Seq<char>>::empty()),
{
    lemma_assoc_empty(t.entries@);
    if t@.dom() == Set::<Seq<char>>::empty() {
        assert(t@.dom() =~= Set::<Seq<char>>::empty());
    }
}

/// A sprite of the value of variable `k`, if present.
fn sprite_of(m: &TextureVars, k: &str) -> (r: Option<ResolvedTexture>)
    ensures
        match r {
            Some(t) => m@.contains_key(k@) && t@ == ResolvedView::Sprite(m@[k@]),
            None => !m@.contains_key(k@),
        },
{
    match get_var(m, k) {
        Some(v) => Some(ResolvedTexture::Sprite(v)),
        None => None,
    }
}

/// The fallbacks: `layer0`, `particle`, `texture`, then the first variable.
fn resolve_last_resort(textures: &TextureVars) -> (r: Option<ResolvedTexture>)
    requires
        textures.entries@.len() > 0,
    ensures
        choice_allows(last_resort(textures@), resolved_view(r)),
{
    if let Some(t) = sprite_of(textures, "layer0") {
        return Some(t);
    }
    if let Some(t) = sprite_of(textures, "particle") {
        return Some(t);
    }
    if let Some(t) = sprite_of(textures, "texture") {
        return Some(t);
    }
    proof { lemma_assoc_empty(textures.entries@); }
    let first = &textures.entries[0].1;
    if !is_reference(first.as_str()) {
        let r = Some(ResolvedTexture::Sprite(copy_string(first)));
        proof {
            let k = textures.entries@[0].0@;
            assert(textures@.contains_key(k) && textures@[k] == first@);
        }
        r
    } else {
        proof {
            let k = textures.entries@[0].0@;
            assert(textures@.contains_key(k) && is_var_ref(textures@[k]));
        }
        None
    }
}

/// Texture resolution of one model path (see `from_model_choice`).
pub fn try_resolve_from_model(model_path: &str, models: &MultiNamespaceModels, namespace: &str) -> (r: Option<ResolvedTexture>)
    ensures
        choice_allows(from_model_choice(models@, model_path@, namespace@), resolved_view(r)),
{
    let textures = resolve_texture_vars(model_path, models, namespace, 0);
    proof { lemma_vars_empty(textures); }
    if textures.entries.len() == 0 {
        return None;
    }
    if is_sprite_model(model_path, models, namespace, 0) {
        if let Some(t) = sprite_of(&textures, "layer0") {
            return Some(t);
        }
    }
    if let Some(bp) = detect_block_parent(model_path, models, namespace, 0) {
        return resolve_block_textures(bp.as_str(), &textures);
    }
    let model = match find_model(models, namespace, model_path) {
        Some(m) => m,
        None => return None,
    };
    if let Some(parent) = &model.parent {
        let norm = normalize_model_path(parent.as_str());
        if starts_with(norm.as_str(), "block/") {
            let (pns, ppath) = parent_location(parent.as_str(), namespace);
            let block_textures = resolve_texture_vars(ppath.as_str(), models, pns.as_str(), 0);
            proof { lemma_vars_empty(block_textures); }
            if block_textures.entries.len() > 0 {
                if let Some(bp) = detect_block_parent(ppath.as_str(), models, pns.as_str(), 0) {
                    return resolve_block_textures(bp.as_str(), &block_textures);
                }
                return try_extract_any_block_texture(&block_textures);
            }
        }
    }
    resolve_last_resort(&textures)
}

/// Whether `r` is a texture that resolving item `item_name` of `kind` may
/// give: the item model's texture, or, when that gives none and the item is a
/// block, the block model's.
pub open spec fn item_texture_allows(
    models: ModelsView,
    item_name: Seq<char>,
    kind: Seq<char>,
    ns: Seq<char>,
    r: Option<ResolvedView>,
) -> bool {
    let item_choice = from_model_choice(models, "item/"@ + item_name, ns);
    let block_choice = from_model_choice(models, "block/"@ + item_name, ns);
    ||| r is Some && choice_allows(item_choice, r)
    ||| choice_allows(item_choice, None) && (if kind == "block"@ {
        choice_allows(block_choice, r)
    } else {
        r is None
    })
}

/// The texture of an item from its item model, or for blocks from the block
/// model when the item model gives none.
pub fn resolve_item_texture(
    item_name: &str,
    kind: &str,
    models: &MultiNamespaceModels,
    namespace: &str,
) -> (r: Option<ResolvedTexture>)
    ensures
        item_texture_allows(models@, item_name@, kind@, namespace@, resolved_view(r)),
{
    let item_model_path = concat2("item/", item_name);
    let resolved = try_resolve_from_model(item_model_path.as_str(), models, namespace);
    if resolved.is_some() {
        return resolved;
    }
    if str_eq(kind, "block") {
        let block_model_path = concat2("block/", item_name);
        return try_resolve_from_model(block_model_path.as_str(), models, namespace);
    }
    None
}

} // verus!
