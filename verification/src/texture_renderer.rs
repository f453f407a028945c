//! Finding the PNG bytes that draw a resolved texture.
//!
//! A sprite is drawn by its texture as it is. A block is drawn by compositing
//! three face textures into an isometric icon; the library finds the faces and
//! leaves the pixel work to the caller.
use vstd::prelude::*;
use crate::assoc::{assoc_view, find_key};
use crate::model_resolver::{qualified, ResolvedTexture, ResolvedView};
use crate::text::{chars_of, concat3, find_char, first_index_of, string_from, to_owned_string};

verus! {

/// PNG textures keyed by path (e.g. `block/stone`, or `ns:block/stone`).
pub struct TextureStore {
    pub entries: Vec<(String, Vec<u8>)>,
}

impl View for TextureStore {
    type V = Map<Seq<char>, Seq<u8>>;

    open spec fn view(&self) -> Map<Seq<char>, Seq<u8>> {
        assoc_view(self.entries@)
    }
}

/// What drawing an item takes: PNG bytes as they are, or three face
/// textures to composite into an isometric block icon.
pub enum RenderedTexture {
    Png(Vec<u8>),
    Isometric { top: Vec<u8>, front: Vec<u8>, right: Vec<u8> },
}

/// Mathematical view of a rendering.
pub enum RenderedView {
    Png(Seq<u8>),
    Isometric { top: Seq<u8>, front: Seq<u8>, right: Seq<u8> },
}

impl View for RenderedTexture {
    type V = RenderedView;

    open spec fn view(&self) -> RenderedView {
        match self {
            RenderedTexture::Png(b) => RenderedView::Png(b@),
            RenderedTexture::Isometric { top, front, right } => RenderedView::Isometric {
                top: top@,
                front: front@,
                right: right@,
            },
        }
    }
}

/// A texture reference without its namespace (the part after the first `:`).
pub open spec fn ref_path(r: Seq<char>) -> Seq<char> {
    match first_index_of(r, ':') {
        Some(i) => r.skip(i + 1),
        None => r,
    }
}

/// The texture a reference names: the path looked up as it is, then
/// qualified with the default namespace.
pub open spec fn lookup_spec(store: Map<Seq<char>, Seq<u8>>, r: Seq<char>, ns: Seq<char>) -> Option<Seq<u8>> {
    let p = ref_path(r);
    if store.contains_key(p) {
        Some(store[p])
    } else if store.contains_key(qualified(ns, p)) {
        Some(store[qualified(ns, p)])
    } else {
        None
    }
}

/// What drawing a resolved texture takes, if all its textures are found.
pub open spec fn render_spec(t: ResolvedView, store: Map<Seq<char>, Seq<u8>>, ns: Seq<char>) -> Option<RenderedView> {
    match t {
        ResolvedView::Sprite(r) => match lookup_spec(store, r, ns) {
            Some(b) => Some(RenderedView::Png(b)),
            None => None,
        },
        ResolvedView::Block { top, front, right } => match (
            lookup_spec(store, top, ns),
            lookup_spec(store, front, ns),
            lookup_spec(store, right, ns),
        ) {
            (Some(t), Some(f), Some(r)) => Some(RenderedView::Isometric { top: t, front: f, right: r }),
            _ => None,
        },
    }
}

/// View of an optional rendering.
pub open spec fn rendered_view(r: Option<RenderedTexture>) -> Option<RenderedView> {
    match r {
        Some(x) => Some(x@),
        None => None,
    }
}

/// A copy of a byte vector.
pub fn copy_bytes(b: &Vec<u8>) -> (r: Vec<u8>)
    ensures
        r@ == b@,
{
    let mut r: Vec<u8> = Vec::new();
    let mut i: usize = 0;
    while i < b.len()
        invariant
            i <= b@.len(),
            r@ == b@.take(i as int),
        decreases b.len() - i,
    {
        r.push(b[i]);
        proof { assert(b@.take(i + 1) =~= b@.take(i as int).push(b@[i as int])); }
        i += 1;
    }
    proof { assert(b@.take(b@.len() as int) =~= b@); }
    r
}

/// Looks up a texture by reference, ignoring the reference's namespace and
/// trying the path alone, then `default_namespace:path`.
pub fn lookup_texture<'a>(tex_ref: &str, all_textures: &'a TextureStore, default_namespace: &str) -> (r: Option<&'a Vec<u8>>)
    ensures
        match r {
            Some(b) => lookup_spec(all_textures@, tex_ref@, default_namespace@) == Some(b@),
            None => lookup_spec(all_textures@, tex_ref@, default_namespace@) is None,
        },
{
    let v = chars_of(tex_ref);
    let path = match find_char(&v, ':') {
        Some(i) => {
            assert(i < v.len());
            string_from(&v, i + 1, v.len())
        },
        None => to_owned_string(tex_ref),
    };
    if let Some(i) = find_key(&all_textures.entries, path.as_str()) {
        return Some(&all_textures.entries[i].1);
    }
    let with_ns = concat3(default_namespace, ":", path.as_str());
    if let Some(i) = find_key(&all_textures.entries, with_ns.as_str()) {
        return Some(&all_textures.entries[i].1);
    }
    None
}

/// What drawing a resolved texture takes: a sprite's PNG bytes, or the three
/// face textures of a block; `None` when a texture is missing.
pub fn render_texture(resolved: &ResolvedTexture, all_textures: &TextureStore, namespace: &str) -> (r: Option<RenderedTexture>)
    ensures
        rendered_view(r) == render_spec(resolved@, all_textures@, namespace@),
{
    match resolved {
        ResolvedTexture::Sprite(tex_ref) => {
            let bytes = lookup_texture(tex_ref.as_str(), all_textures, namespace)?;
            Some(RenderedTexture::Png(copy_bytes(bytes)))
        },
        ResolvedTexture::BlockIsometric { top, front, right } => {
            let top_bytes = lookup_texture(top.as_str(), all_textures, namespace)?;
            let front_bytes = lookup_texture(front.as_str(), all_textures, namespace)?;
            let right_bytes = lookup_texture(right.as_str(), all_textures, namespace)?;
            Some(RenderedTexture::Isometric {
                top: copy_bytes(top_bytes),
                front: copy_bytes(front_bytes),
                right: copy_bytes(right_bytes),
            })
        },
    }
}

} // verus!
