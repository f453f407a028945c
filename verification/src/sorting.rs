//! Stable sorting by string keys, compared as Rust compares strings
//! (code point by code point, a prefix before its extensions).
use vstd::prelude::*;
use crate::text::chars_of;

verus! {

broadcast use vstd::seq_lib::group_seq_properties;

/// `a` is not after `b` in string order.
pub open spec fn key_le(a: Seq<char>, b: Seq<char>) -> bool
    decreases a.len(),
{
    if a.len() == 0 {
        true
    } else if b.len() == 0 {
        false
    } else if (a[0] as u32) < (b[0] as u32) {
        true
    } else if (a[0] as u32) > (b[0] as u32) {
        false
    } else {
        key_le(a.drop_first(), b.drop_first())
    }
}

/// Entries with their keys viewed.
pub open spec fn keyed<T>(s: Seq<(String, T)>) -> Seq<(Seq<char>, T)> {
    s.map_values(|p: (String, T)| (p.0@, p.1))
}

/// `e` placed into `s` after every entry whose key is not after its key,
/// scanning from the end.
pub open spec fn insert_sorted<T>(s: Seq<(Seq<char>, T)>, e: (Seq<char>, T)) -> Seq<(Seq<char>, T)>
    decreases s.len(),
{
    if s.len() == 0 {
        seq![e]
    } else if key_le(s.last().0, e.0) {
        s.push(e)
    } else {
        insert_sorted(s.drop_last(), e).push(s.last())
    }
}

/// The stable sort of `s` by key: each entry in turn inserted after the
/// entries before it whose keys are not after its key.
pub open spec fn sort_spec<T>(s: Seq<(Seq<char>, T)>) -> Seq<(Seq<char>, T)>
    decreases s.len(),
{
    if s.len() == 0 {
        s
    } else {
        insert_sorted(sort_spec(s.drop_last()), s.last())
    }
}

/// The keys of `s` are in order.
pub open spec fn keys_sorted<T>(s: Seq<(Seq<char>, T)>) -> bool {
    forall|i: int, j: int| 0 <= i < j < s.len() ==> key_le(#[trigger] s[i].0, #[trigger] s[j].0)
}

/// `key_le` is reflexive.
pub proof fn lemma_key_le_refl(a: Seq<char>)
    ensures
        key_le(a, a),
    decreases a.len(),
{
    if a.len() > 0 {
        lemma_key_le_refl(a.drop_first());
    }
}

/// `key_le` is total.
pub proof fn lemma_key_le_total(a: Seq<char>, b: Seq<char>)
    ensures
        key_le(a, b) || key_le(b, a),
    decreases a.len(),
{
    if a.len() > 0 && b.len() > 0 && (a[0] as u32) == (b[0] as u32) {
        lemma_key_le_total(a.drop_first(), b.drop_first());
    }
}

/// `key_le` is transitive.
pub proof fn lemma_key_le_trans(a: Seq<char>, b: Seq<char>, c: Seq<char>)
    requires
        key_le(a, b),
        key_le(b, c),
    ensures
        key_le(a, c),
    decreases a.len(),
{
    if a.len() > 0 && b.len() > 0 && c.len() > 0 && (a[0] as u32) == (b[0] as u32) && (b[0] as u32) == (c[0] as u32) {
        lemma_key_le_trans(a.drop_first(), b.drop_first(), c.drop_first());
    }
}

/// Whether `a` is not after `b` in string order.
pub fn str_le(a: &str, b: &str) -> (r: bool)
    ensures
        r == key_le(a@, b@),
{
    let x = chars_of(a);
    let y = chars_of(b);
    let mut i: usize = 0;
    while i < x.len()
        invariant
            x@ == a@,
            y@ == b@,
            i <= x@.len(),
            i <= y@.len(),
            key_le(a@, b@) == key_le(a@.skip(i as int), b@.skip(i as int)),
        decreases x.len() - i,
    {
        proof {
            assert(a@.skip(i as int).drop_first() =~= a@.skip(i + 1));
        }
        if i >= y.len() {
            return false;
        }
        proof {
            assert(b@.skip(i as int).drop_first() =~= b@.skip(i + 1));
        }
        let c = x[i] as u32;
        let d = y[i] as u32;
        if c < d {
            return true;
        }
        if c > d {
            return false;
        }
        i += 1;
    }
    true
}

/// Inserting at `j`, after the last entry whose key is not after the new
/// key, is `insert_sorted`.
proof fn lemma_insert_at<T>(s: Seq<(Seq<char>, T)>, e: (Seq<char>, T), j: int)
    requires
        0 <= j <= s.len(),
        j == 0 || key_le(s[j - 1].0, e.0),
        forall|k: int| j <= k < s.len() ==> !key_le(#[trigger] s[k].0, e.0),
    ensures
        insert_sorted(s, e) == s.insert(j, e),
    decreases s.len(),
{
    if j == s.len() {
        if s.len() == 0 {
            assert(s.insert(j, e) =~= seq![e]);
        } else {
            assert(s.insert(j, e) =~= s.push(e));
        }
    } else {
        assert(!key_le(s.last().0, e.0));
        lemma_insert_at(s.drop_last(), e, j);
        assert(s.insert(j, e) =~= s.drop_last().insert(j, e).push(s.last()));
    }
}

/// Sorts entries by key, keeping entries with equal keys in their order.
pub fn sort_by_key<T>(v: Vec<(String, T)>) -> (r: Vec<(String, T)>)
    ensures
        keyed(r@) == sort_spec(keyed(v@)),
{
    let ghost orig = v@;
    let mut rest = v;
    let mut out: Vec<(String, T)> = Vec::new();
    let n = rest.len();
    let mut i: usize = 0;
    while i < n
        invariant
            n == orig.len(),
            i <= n,
            rest@ == orig.skip(i as int),
            keyed(out@) == sort_spec(keyed(orig.take(i as int))),
        decreases n - i,
    {
        let e = rest.remove(0);
        proof {
            assert(orig.skip(i as int).drop_first() =~= orig.skip(i + 1));
            assert(keyed(orig.take(i + 1)).drop_last() =~= keyed(orig.take(i as int)));
            assert(keyed(orig.take(i + 1)).last() == (e.0@, e.1));
        }
        let ghost s = keyed(out@);
        let mut j = out.len();
        while j > 0 && !str_le(out[j - 1].0.as_str(), e.0.as_str())
            invariant
                s == keyed(out@),
                j <= out@.len(),
                forall|k: int| j <= k < s.len() ==> !key_le(#[trigger] s[k].0, e.0@),
            decreases j,
        {
            j -= 1;
        }
        proof {
            lemma_insert_at(s, (e.0@, e.1), j as int);
        }
        out.insert(j, e);
        proof {
            assert(keyed(out@) =~= s.insert(j as int, (e.0@, e.1)));
        }
        i += 1;
    }
    proof {
        assert(orig.take(n as int) =~= orig);
    }
    out
}

/// `insert_sorted` keeps a sorted sequence sorted.
proof fn lemma_insert_sorted_sorted<T>(s: Seq<(Seq<char>, T)>, e: (Seq<char>, T))
    requires
        keys_sorted(s),
    ensures
        keys_sorted(insert_sorted(s, e)),
        insert_sorted(s, e).len() == s.len() + 1,
        insert_sorted(s, e).to_multiset() == s.to_multiset().insert(e),
        forall|k: int| 0 <= k < insert_sorted(s, e).len() ==>
            #[trigger] insert_sorted(s, e)[k] == e || s.contains(insert_sorted(s, e)[k]),
    decreases s.len(),
{
    let r = insert_sorted(s, e);
    if s.len() == 0 {
        assert(r.to_multiset() =~= s.to_multiset().insert(e));
    } else if key_le(s.last().0, e.0) {
        assert forall|i: int, j: int| 0 <= i < j < r.len() implies key_le(#[trigger] r[i].0, #[trigger] r[j].0) by {
            if j == s.len() {
                if i < s.len() - 1 {
                    lemma_key_le_trans(s[i].0, s.last().0, e.0);
                }
            }
        }
        assert(r.to_multiset() =~= s.to_multiset().insert(e));
    } else {
        let p = s.drop_last();
        assert(keys_sorted(p));
        lemma_insert_sorted_sorted(p, e);
        let q = insert_sorted(p, e);
        lemma_key_le_total(s.last().0, e.0);
        assert forall|k: int| 0 <= k < q.len() implies key_le(#[trigger] q[k].0, s.last().0) by {
            if q[k] == e {
            } else {
                assert(p.contains(q[k]));
                let m = choose|m: int| 0 <= m < p.len() && p[m] == q[k];
                assert(s[m] == p[m]);
            }
        }
        assert forall|i: int, j: int| 0 <= i < j < r.len() implies key_le(#[trigger] r[i].0, #[trigger] r[j].0) by {
            if j == q.len() {
                assert(r[i] == q[i]);
            } else {
                assert(r[i] == q[i] && r[j] == q[j]);
            }
        }
        assert forall|k: int| 0 <= k < r.len() implies #[trigger] r[k] == e || s.contains(r[k]) by {
            if k < q.len() {
                assert(r[k] == q[k]);
                if q[k] != e {
                    let m = choose|m: int| 0 <= m < p.len() && p[m] == q[k];
                    assert(s[m] == p[m]);
                }
            } else {
                assert(r[k] == s[s.len() - 1]);
            }
        }
        assert(s =~= p.push(s.last()));
        assert(r.to_multiset() =~= s.to_multiset().insert(e));
    }
}

/// The stable sort orders entries by key and holds the same entries.
pub proof fn lemma_sort_spec<T>(s: Seq<(Seq<char>, T)>)
    ensures
        keys_sorted(sort_spec(s)),
        sort_spec(s).len() == s.len(),
        sort_spec(s).to_multiset() == s.to_multiset(),
    decreases s.len(),
{
    if s.len() > 0 {
        lemma_sort_spec(s.drop_last());
        lemma_insert_sorted_sorted(sort_spec(s.drop_last()), s.last());
        assert(s =~= s.drop_last().push(s.last()));
    }
}

/// The values of keyed entries.
pub open spec fn unkeyed<T>(s: Seq<(Seq<char>, T)>) -> Seq<T> {
    s.map_values(|p: (Seq<char>, T)| p.1)
}

/// The values of keyed entries, in order.
pub fn values_of<T>(v: Vec<(String, T)>) -> (r: Vec<T>)
    ensures
        r@ == unkeyed(keyed(v@)),
{
    let ghost orig = v@;
    let mut rest = v;
    let mut out: Vec<T> = Vec::new();
    let n = rest.len();
    let mut i: usize = 0;
    while i < n
        invariant
            n == orig.len(),
            i <= n,
            rest@ == orig.skip(i as int),
            out@ == unkeyed(keyed(orig.take(i as int))),
        decreases n - i,
    {
        let (_, x) = rest.remove(0);
        proof {
            assert(orig.skip(i as int).drop_first() =~= orig.skip(i + 1));
            assert(unkeyed(keyed(orig.take(i + 1))) =~= unkeyed(keyed(orig.take(i as int))).push(x));
        }
        out.push(x);
        i += 1;
    }
    proof { assert(orig.take(n as int) =~= orig); }
    out
}

} // verus!
