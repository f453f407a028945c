//! Association lists keyed by strings: the library's form of a string-keyed
//! map. Lookups find the first entry with a key, so the view of a list is a
//! `Map` in which each key holds the value of its first entry.
use vstd::prelude::*;
use crate::text::str_eq;

verus! {

/// The map that a list of `(key, value)` entries stands for: each key maps to
/// the view of the value of its first entry.
pub open spec fn assoc_view<V: View>(s: Seq<(String, V)>) -> Map<Seq<char>, V::V>
    decreases s.len(),
{
    if s.len() == 0 {
        Map::empty()
    } else {
        assoc_view(s.drop_first()).insert(s[0].0@, s[0].1@)
    }
}

/// Index of the first entry whose key is `k`.
pub open spec fn first_key_index<V>(s: Seq<(String, V)>, k: Seq<char>) -> Option<int>
    decreases s.len(),
{
    if s.len() == 0 {
        None
    } else if s[0].0@ == k {
        Some(0)
    } else {
        match first_key_index(s.drop_first(), k) {
            Some(i) => Some(i + 1),
            None => None,
        }
    }
}

/// Facts tying `first_key_index` to the entries and to `assoc_view`.
pub proof fn lemma_first_key_index<V: View>(s: Seq<(String, V)>, k: Seq<char>)
    ensures
        match first_key_index(s, k) {
            Some(i) => {
                &&& 0 <= i < s.len()
                &&& s[i].0@ == k
                &&& forall|j: int| 0 <= j < i ==> s[j].0@ != k
                &&& assoc_view(s).contains_key(k)
                &&& assoc_view(s)[k] == s[i].1@
            },
            None => {
                &&& forall|j: int| 0 <= j < s.len() ==> s[j].0@ != k
                &&& !assoc_view(s).contains_key(k)
            },
        },
    decreases s.len(),
{
    if s.len() > 0 {
        lemma_first_key_index(s.drop_first(), k);
        assert forall|j: int| 1 <= j < s.len() implies s[j] == s.drop_first()[j - 1] by {}
    }
}

/// The keys of `assoc_view(s)` are exactly the keys of the entries.
pub proof fn lemma_assoc_dom<V: View>(s: Seq<(String, V)>, k: Seq<char>)
    ensures
        assoc_view(s).contains_key(k) <==> exists|j: int| 0 <= j < s.len() && #[trigger] s[j].0@ == k,
{
    lemma_first_key_index(s, k);
    if assoc_view(s).contains_key(k) {
        let i = first_key_index(s, k)->0;
        assert(s[i].0@ == k);
    }
}

/// An empty list stands for the empty map and a non-empty one for a
/// non-empty map.
pub proof fn lemma_assoc_empty<V: View>(s: Seq<(String, V)>)
    ensures
        (s.len() == 0) == (assoc_view(s).dom() =~= Set::<Seq<char>>::empty()),
        s.len() > 0 ==> assoc_view(s).contains_key(s[0].0@) && assoc_view(s)[s[0].0@] == s[0].1@,
{
    if s.len() > 0 {
        assert(assoc_view(s).contains_key(s[0].0@));
    }
}

/// The view of a list is a finite map.
pub proof fn lemma_assoc_finite<V: View>(s: Seq<(String, V)>)
    ensures
        assoc_view(s).dom().finite(),
    decreases s.len(),
{
    if s.len() > 0 {
        lemma_assoc_finite(s.drop_first());
    }
}

/// Replacing the value of the first entry with key `k` updates the map at `k`.
pub proof fn lemma_assoc_update<V: View>(s: Seq<(String, V)>, i: int, e: (String, V))
    requires
        first_key_index(s, e.0@) == Some(i),
    ensures
        assoc_view(s.update(i, e)) == assoc_view(s).insert(e.0@, e.1@),
    decreases s.len(),
{
    lemma_first_key_index(s, e.0@);
    if i == 0 {
        assert(s.update(0, e).drop_first() =~= s.drop_first());
        assert(assoc_view(s.update(i, e)) =~= assoc_view(s).insert(e.0@, e.1@));
    } else {
        assert(s[0].0@ != e.0@);
        lemma_assoc_update(s.drop_first(), i - 1, e);
        assert(s.update(i, e).drop_first() =~= s.drop_first().update(i - 1, e));
        assert(assoc_view(s.update(i, e)) =~= assoc_view(s).insert(e.0@, e.1@));
    }
}

/// Appending an entry with a new key adds that key to the map.
pub proof fn lemma_assoc_push<V: View>(s: Seq<(String, V)>, e: (String, V))
    requires
        !assoc_view(s).contains_key(e.0@),
    ensures
        assoc_view(s.push(e)) == assoc_view(s).insert(e.0@, e.1@),
    decreases s.len(),
{
    if s.len() == 0 {
        assert(s.push(e)[0] == e);
        assert(s.push(e).drop_first() =~= s);
        assert(assoc_view(s) == Map::<Seq<char>, V::V>::empty());
        assert(assoc_view(s.push(e)) =~= assoc_view(s).insert(e.0@, e.1@));
    } else {
        assert(s.push(e).drop_first() =~= s.drop_first().push(e));
        assert(s.push(e)[0] == s[0]);
        assert(!assoc_view(s.drop_first()).contains_key(e.0@)) by {
            lemma_assoc_dom(s, e.0@);
            lemma_assoc_dom(s.drop_first(), e.0@);
            if assoc_view(s.drop_first()).contains_key(e.0@) {
                let j = choose|j: int| 0 <= j < s.drop_first().len() && #[trigger] s.drop_first()[j].0@ == e.0@;
                assert(s[j + 1].0@ == e.0@);
            }
        }
        lemma_assoc_push(s.drop_first(), e);
        assert(assoc_view(s).contains_key(s[0].0@));
        assert(s[0].0@ != e.0@);
        assert(assoc_view(s.push(e)) =~= assoc_view(s).insert(e.0@, e.1@));
    }
}

/// Appending an entry adds its key to the map when the key is new, and
/// changes nothing when an earlier entry already holds the key.
pub proof fn lemma_assoc_push_any<V: View>(s: Seq<(String, V)>, e: (String, V))
    ensures
        assoc_view(s.push(e)) == (if assoc_view(s).contains_key(e.0@) {
            assoc_view(s)
        } else {
            assoc_view(s).insert(e.0@, e.1@)
        }),
    decreases s.len(),
{
    if s.len() == 0 {
        lemma_assoc_push(s, e);
    } else {
        let df = s.drop_first();
        lemma_assoc_push_any(df, e);
        assert(s.push(e).drop_first() =~= df.push(e));
        assert(s.push(e)[0] == s[0]);
        let k0 = s[0].0@;
        if assoc_view(s).contains_key(e.0@) {
            if assoc_view(df).contains_key(e.0@) {
                assert(assoc_view(s.push(e)) =~= assoc_view(s));
            } else {
                assert(k0 == e.0@);
                assert(assoc_view(s.push(e)) =~= assoc_view(s));
            }
        } else {
            assert(k0 != e.0@);
            assert(assoc_view(s.push(e)) =~= assoc_view(s).insert(e.0@, e.1@));
        }
    }
}

/// Index of the first entry whose key is `key`.
pub fn find_key<V: View>(entries: &Vec<(String, V)>, key: &str) -> (r: Option<usize>)
    ensures
        match r {
            Some(i) => first_key_index(entries@, key@) == Some(i as int),
            None => first_key_index(entries@, key@) is None,
        },
        match r {
            Some(i) => i < entries@.len() && assoc_view(entries@).contains_key(key@)
                && assoc_view(entries@)[key@] == entries@[i as int].1@,
            None => !assoc_view(entries@).contains_key(key@),
        },
{
    proof { lemma_first_key_index(entries@, key@); }
    let mut i: usize = 0;
    while i < entries.len()
        invariant
            i <= entries@.len(),
            forall|j: int| 0 <= j < i ==> entries@[j].0@ != key@,
        decreases entries.len() - i,
    {
        if str_eq(entries[i].0.as_str(), key) {
            proof { lemma_first_key_index(entries@, key@); }
            return Some(i);
        }
        i += 1;
    }
    proof { lemma_first_key_index(entries@, key@); }
    None
}

} // verus!
