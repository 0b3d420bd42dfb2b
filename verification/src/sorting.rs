//! Sorting attributes by key: what it means for a sequence of attributes to be
//! in ascending order and to hold the same entries as another, and a merge
//! sort that brings a sequence with distinct keys into that order.

use vstd::prelude::*;

use crate::attr::{attr_views, Attr};
use crate::node::distinct_keys;
use crate::text::{
    compare_keys, key_lt, lemma_key_lt_asymmetric, lemma_key_lt_irreflexive, lemma_key_lt_total,
    lemma_key_lt_transitive, KeyOrder,
};

verus! {

/// The keys of `s` ascend strictly from each entry to every later one.
pub open spec fn ascending(s: Seq<(Seq<char>, Seq<char>)>) -> bool {
    forall|i: int, j: int| #![trigger s[i], s[j]] 0 <= i < j < s.len() ==> key_lt(s[i].0, s[j].0)
}

/// `a` and `b` hold the same key/value pairs, whatever their order.
pub open spec fn same_entries(a: Seq<(Seq<char>, Seq<char>)>, b: Seq<(Seq<char>, Seq<char>)>) -> bool {
    forall|p: (Seq<char>, Seq<char>)| a.contains(p) <==> b.contains(p)
}

/// No key of `a` is a key of `b`.
pub open spec fn disjoint_keys(a: Seq<(Seq<char>, Seq<char>)>, b: Seq<(Seq<char>, Seq<char>)>) -> bool {
    forall|i: int, j: int| #![trigger a[i], b[j]] 0 <= i < a.len() && 0 <= j < b.len() ==> a[i].0 != b[j].0
}

proof fn lemma_push_contains(s: Seq<(Seq<char>, Seq<char>)>, x: (Seq<char>, Seq<char>))
    ensures
        forall|p: (Seq<char>, Seq<char>)| #[trigger] s.push(x).contains(p) <==> s.contains(p) || p == x,
{
    assert forall|p: (Seq<char>, Seq<char>)| #[trigger] s.push(x).contains(p) <==> s.contains(p) || p == x by {
        if s.contains(p) {
            let i = choose|i: int| 0 <= i < s.len() && s[i] == p;
            assert(s.push(x)[i] == p);
        }
        if p == x {
            assert(s.push(x)[s.len() as int] == p);
        }
        if s.push(x).contains(p) {
            let i = choose|i: int| 0 <= i < s.push(x).len() && s.push(x)[i] == p;
            if i < s.len() {
                assert(s[i] == p);
            }
        }
    }
}

proof fn lemma_concat_contains(a: Seq<(Seq<char>, Seq<char>)>, b: Seq<(Seq<char>, Seq<char>)>)
    ensures
        forall|p: (Seq<char>, Seq<char>)| #[trigger] (a + b).contains(p) <==> a.contains(p) || b.contains(p),
{
    assert forall|p: (Seq<char>, Seq<char>)| #[trigger] (a + b).contains(p) <==> a.contains(p) || b.contains(p) by {
        if a.contains(p) {
            let i = choose|i: int| 0 <= i < a.len() && a[i] == p;
            assert((a + b)[i] == p);
        }
        if b.contains(p) {
            let i = choose|i: int| 0 <= i < b.len() && b[i] == p;
            assert((a + b)[a.len() + i] == p);
        }
        if (a + b).contains(p) {
            let i = choose|i: int| 0 <= i < (a + b).len() && (a + b)[i] == p;
            if i < a.len() {
                assert(a[i] == p);
            } else {
                assert(b[i - a.len()] == p);
            }
        }
    }
}

/// Merges two ascending runs that have no key in common into one.
fn merge<'a>(left: &Vec<Attr<'a>>, right: &Vec<Attr<'a>>) -> (r: Vec<Attr<'a>>)
    requires
        ascending(attr_views(left@)),
        ascending(attr_views(right@)),
        disjoint_keys(attr_views(left@), attr_views(right@)),
    ensures
        ascending(attr_views(r@)),
        same_entries(attr_views(r@), attr_views(left@) + attr_views(right@)),
{
    let ghost lv = attr_views(left@);
    let ghost rv = attr_views(right@);
    let mut out: Vec<Attr<'a>> = Vec::new();
    let mut i: usize = 0;
    let mut j: usize = 0;
    while i < left.len() || j < right.len()
        invariant
            lv == attr_views(left@),
            rv == attr_views(right@),
            ascending(lv),
            ascending(rv),
            disjoint_keys(lv, rv),
            i <= left.len(),
            j <= right.len(),
            ascending(attr_views(out@)),
            forall|k: int, m: int|
                #![trigger attr_views(out@)[k], lv[m]]
                0 <= k < out.len() && i <= m < lv.len() ==> key_lt(attr_views(out@)[k].0, lv[m].0),
            forall|k: int, m: int|
                #![trigger attr_views(out@)[k], rv[m]]
                0 <= k < out.len() && j <= m < rv.len() ==> key_lt(attr_views(out@)[k].0, rv[m].0),
            forall|p: (Seq<char>, Seq<char>)|
                attr_views(out@).contains(p) <==> lv.take(i as int).contains(p) || rv.take(
                    j as int,
                ).contains(p),
        decreases left.len() - i + right.len() - j,
    {
        let ghost ov = attr_views(out@);
        let from_left = if i == left.len() {
            false
        } else if j == right.len() {
            true
        } else {
            match compare_keys(left[i].key, right[j].key) {
                KeyOrder::Before => true,
                _ => false,
            }
        };
        if from_left {
            let x = left[i];
            out.push(x);
            proof {
                let nv = attr_views(out@);
                assert(nv =~= ov.push(lv[i as int]));
                assert(lv.take(i + 1) =~= lv.take(i as int).push(lv[i as int]));
                lemma_push_contains(ov, lv[i as int]);
                lemma_push_contains(lv.take(i as int), lv[i as int]);
                assert forall|k: int, m: int|
                    #![trigger nv[k], rv[m]]
                    0 <= k < nv.len() && j <= m < rv.len() implies key_lt(nv[k].0, rv[m].0) by {
                    if k == ov.len() {
                        if m > j {
                            lemma_key_lt_transitive(lv[i as int].0, rv[j as int].0, rv[m].0);
                        }
                    }
                }
                assert forall|k: int, m: int|
                    #![trigger nv[k], lv[m]]
                    0 <= k < nv.len() && i + 1 <= m < lv.len() implies key_lt(nv[k].0, lv[m].0) by {}
                assert forall|a: int, b: int| #![trigger nv[a], nv[b]] 0 <= a < b < nv.len() implies key_lt(
                    nv[a].0,
                    nv[b].0,
                ) by {}
            }
            i = i + 1;
        } else {
            let x = right[j];
            out.push(x);
            proof {
                let nv = attr_views(out@);
                assert(nv =~= ov.push(rv[j as int]));
                assert(rv.take(j + 1) =~= rv.take(j as int).push(rv[j as int]));
                lemma_push_contains(ov, rv[j as int]);
                lemma_push_contains(rv.take(j as int), rv[j as int]);
                assert forall|k: int, m: int|
                    #![trigger nv[k], lv[m]]
                    0 <= k < nv.len() && i <= m < lv.len() implies key_lt(nv[k].0, lv[m].0) by {
                    if k == ov.len() {
                        if m > i {
                            lemma_key_lt_transitive(rv[j as int].0, lv[i as int].0, lv[m].0);
                        }
                    }
                }
                assert forall|k: int, m: int|
                    #![trigger nv[k], rv[m]]
                    0 <= k < nv.len() && j + 1 <= m < rv.len() implies key_lt(nv[k].0, rv[m].0) by {}
                assert forall|a: int, b: int| #![trigger nv[a], nv[b]] 0 <= a < b < nv.len() implies key_lt(
                    nv[a].0,
                    nv[b].0,
                ) by {}
            }
            j = j + 1;
        }
    }
    proof {
        assert(lv.take(i as int) =~= lv);
        assert(rv.take(j as int) =~= rv);
        lemma_concat_contains(lv, rv);
    }
    out
}

/// An ascending arrangement of the attributes `attrs[lo..hi]`.
fn sorted_range<'a>(attrs: &Vec<Attr<'a>>, lo: usize, hi: usize) -> (r: Vec<Attr<'a>>)
    requires
        lo <= hi <= attrs.len(),
        distinct_keys(attr_views(attrs@)),
    ensures
        ascending(attr_views(r@)),
        same_entries(attr_views(r@), attr_views(attrs@).subrange(lo as int, hi as int)),
    decreases hi - lo,
{
    let ghost all = attr_views(attrs@);
    if hi - lo == 0 {
        let r: Vec<Attr<'a>> = Vec::new();
        r
    } else if hi - lo == 1 {
        let mut r: Vec<Attr<'a>> = Vec::new();
        r.push(attrs[lo]);
        assert(attr_views(r@) =~= all.subrange(lo as int, hi as int));
        r
    } else {
        let mid = lo + (hi - lo) / 2;
        let left = sorted_range(attrs, lo, mid);
        let right = sorted_range(attrs, mid, hi);
        proof {
            let lv = attr_views(left@);
            let rv = attr_views(right@);
            let ls = all.subrange(lo as int, mid as int);
            let rs = all.subrange(mid as int, hi as int);
            assert forall|i: int, j: int|
                #![trigger lv[i], rv[j]]
                0 <= i < lv.len() && 0 <= j < rv.len() implies lv[i].0 != rv[j].0 by {
                assert(lv.contains(lv[i]));
                assert(rv.contains(rv[j]));
                let a = choose|a: int| 0 <= a < ls.len() && ls[a] == lv[i];
                let b = choose|b: int| 0 <= b < rs.len() && rs[b] == rv[j];
                assert(all[lo + a] == lv[i]);
                assert(all[mid + b] == rv[j]);
            }
            assert(all.subrange(lo as int, hi as int) =~= ls + rs);
            lemma_concat_contains(lv, rv);
            lemma_concat_contains(ls, rs);
        }
        merge(&left, &right)
    }
}

/// Sorts attributes with distinct keys into ascending key order.
pub fn sort_attrs<'a>(attrs: &Vec<Attr<'a>>) -> (r: Vec<Attr<'a>>)
    requires
        distinct_keys(attr_views(attrs@)),
    ensures
        ascending(attr_views(r@)),
        same_entries(attr_views(r@), attr_views(attrs@)),
{
    assert(attr_views(attrs@).subrange(0, attrs.len() as int) =~= attr_views(attrs@));
    sorted_range(attrs, 0, attrs.len())
}

/// An ascending sequence is determined by the entries it holds: two of them
/// with the same entries are equal.
pub proof fn lemma_ascending_unique(a: Seq<(Seq<char>, Seq<char>)>, b: Seq<(Seq<char>, Seq<char>)>)
    requires
        ascending(a),
        ascending(b),
        same_entries(a, b),
    ensures
        a == b,
    decreases a.len(),
{
    if a.len() == 0 {
        if b.len() > 0 {
            assert(b.contains(b[0]));
        }
    } else {
        assert(a.contains(a[0]));
        let j = choose|j: int| 0 <= j < b.len() && b[j] == a[0];
        assert(b.contains(b[0]));
        let i = choose|i: int| 0 <= i < a.len() && a[i] == b[0];
        lemma_key_lt_irreflexive(a[0].0);
        if i > 0 && j > 0 {
            lemma_key_lt_asymmetric(a[0].0, a[i].0);
        }
        let ta = a.drop_first();
        let tb = b.drop_first();
        assert forall|p: (Seq<char>, Seq<char>)| ta.contains(p) <==> tb.contains(p) by {
            lemma_key_lt_irreflexive(p.0);
            if ta.contains(p) {
                assert(a.contains(p));
                let m = choose|m: int| 0 <= m < b.len() && b[m] == p;
                assert(tb[m - 1] == p);
            }
            if tb.contains(p) {
                assert(b.contains(p));
                let m = choose|m: int| 0 <= m < a.len() && a[m] == p;
                assert(ta[m - 1] == p);
            }
        }
        assert forall|x: int, y: int| #![trigger ta[x], ta[y]] 0 <= x < y < ta.len() implies key_lt(
            ta[x].0,
            ta[y].0,
        ) by {}
        assert forall|x: int, y: int| #![trigger tb[x], tb[y]] 0 <= x < y < tb.len() implies key_lt(
            tb[x].0,
            tb[y].0,
        ) by {}
        lemma_ascending_unique(ta, tb);
        assert(a =~= seq![a[0]] + ta);
    }
}

/// `s` with `x` put in behind the entries whose keys come before its own.
pub open spec fn inserted(s: Seq<(Seq<char>, Seq<char>)>, x: (Seq<char>, Seq<char>)) -> Seq<
    (Seq<char>, Seq<char>),
>
    decreases s.len(),
{
    if s.len() == 0 {
        seq![x]
    } else if key_lt(s.last().0, x.0) {
        s.push(x)
    } else {
        inserted(s.drop_last(), x).push(s.last())
    }
}

/// The entries of `pairs` put in one after another, each at its place.
pub open spec fn sorted(pairs: Seq<(Seq<char>, Seq<char>)>) -> Seq<(Seq<char>, Seq<char>)>
    decreases pairs.len(),
{
    if pairs.len() == 0 {
        Seq::empty()
    } else {
        inserted(sorted(pairs.drop_last()), pairs.last())
    }
}

/// Putting an entry with a new key into an ascending sequence keeps the
/// sequence ascending and adds that entry and no other.
pub proof fn lemma_inserted(s: Seq<(Seq<char>, Seq<char>)>, x: (Seq<char>, Seq<char>))
    requires
        ascending(s),
        forall|i: int| 0 <= i < s.len() ==> (#[trigger] s[i]).0 != x.0,
    ensures
        ascending(inserted(s, x)),
        forall|p: (Seq<char>, Seq<char>)| #[trigger]
            inserted(s, x).contains(p) <==> s.contains(p) || p == x,
    decreases s.len(),
{
    let r = inserted(s, x);
    if s.len() == 0 {
        assert(s.push(x) =~= seq![x]);
        lemma_push_contains(s, x);
    } else if key_lt(s.last().0, x.0) {
        lemma_push_contains(s, x);
        assert forall|i: int, j: int| #![trigger r[i], r[j]] 0 <= i < j < r.len() implies key_lt(
            r[i].0,
            r[j].0,
        ) by {
            if j == s.len() {
                if i < s.len() - 1 {
                    lemma_key_lt_transitive(s[i].0, s.last().0, x.0);
                }
            }
        }
    } else {
        let front = s.drop_last();
        let last = s.last();
        assert forall|i: int, j: int| #![trigger front[i], front[j]] 0 <= i < j < front.len() implies key_lt(
            front[i].0,
            front[j].0,
        ) by {}
        assert forall|i: int| 0 <= i < front.len() implies (#[trigger] front[i]).0 != x.0 by {}
        lemma_inserted(front, x);
        let inner = inserted(front, x);
        assert(s =~= front.push(last));
        lemma_push_contains(front, last);
        lemma_push_contains(inner, last);
        lemma_key_lt_total(last.0, x.0);
        assert forall|i: int, j: int| #![trigger r[i], r[j]] 0 <= i < j < r.len() implies key_lt(
            r[i].0,
            r[j].0,
        ) by {
            if j == inner.len() {
                assert(inner.contains(inner[i]));
            }
        }
    }
}

/// Whatever the order of pairs with distinct keys, `sorted` ascends and holds
/// the same entries. So an ascending arrangement of them exists.
pub proof fn lemma_sorted(pairs: Seq<(Seq<char>, Seq<char>)>)
    requires
        distinct_keys(pairs),
    ensures
        ascending(sorted(pairs)),
        same_entries(sorted(pairs), pairs),
    decreases pairs.len(),
{
    if pairs.len() > 0 {
        let front = pairs.drop_last();
        let last = pairs.last();
        assert forall|i: int, j: int|
            0 <= i < front.len() && 0 <= j < front.len() && i != j implies front[i].0 != front[j].0 by {}
        lemma_sorted(front);
        let inner = sorted(front);
        assert forall|i: int| 0 <= i < inner.len() implies (#[trigger] inner[i]).0 != last.0 by {
            assert(inner.contains(inner[i]));
        }
        lemma_inserted(inner, last);
        assert(pairs =~= front.push(last));
        lemma_push_contains(front, last);
    }
}

} // verus!
