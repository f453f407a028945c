//! Lang files: JSON objects from translation keys to display names.
use vstd::prelude::*;
use crate::assoc::assoc_view;

verus! {

/// The string-to-string map that JSON text `text` holds as an object (per
/// `serde_json`), or `None` when the text is not such an object.
pub uninterp spec fn json_string_map(text: Seq<char>) -> Option<Map<Seq<char>, Seq<char>>>;

/// No key occurs twice among the entries.
pub open spec fn keys_distinct(s: Seq<(String, String)>) -> bool {
    forall|i: int, j: int| 0 <= i < j < s.len() ==> #[trigger] s[i].0@ != #[trigger] s[j].0@
}

/// Parses JSON text into a string map (`serde_json::from_str` into a
/// `HashMap<String, String>`), handed out as entries. The entries stand for
/// the parsed map, one per key; their order is the map's walk order and is
/// not stated.
#[verifier::external_body]
fn parse_string_map(text: &str) -> (r: Option<Vec<(String, String)>>)
    ensures
        match r {
            Some(v) => json_string_map(text@) == Some(assoc_view(v@)) && keys_distinct(v@),
            None => json_string_map(text@) is None,
        },
{
    serde_json::from_str::<std::collections::HashMap<String, String>>(text).ok().map(|m| m.into_iter().collect())
}

/// The entries of a lang file's text: the key-to-name map it holds, one entry
/// per key, or no entries when the text is not a JSON object of strings.
pub fn lang_map_from_json(text: &str) -> (r: Vec<(String, String)>)
    ensures
        keys_distinct(r@),
        match json_string_map(text@) {
            Some(m) => assoc_view(r@) == m,
            None => r@.len() == 0,
        },
{
    match parse_string_map(text) {
        Some(v) => v,
        None => Vec::new(),
    }
}

} // verus!
