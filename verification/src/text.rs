//! Character sequences: the order on attribute keys and the small pieces of
//! text that rendering is built from.

use vstd::prelude::*;
use vstd::std_specs::iter::IteratorSpec;

verus! {

broadcast use vstd::string::group_string_axioms;

/// `n` space characters.
pub open spec fn spaces(n: nat) -> Seq<char> {
    Seq::new(n, |i: int| ' ')
}

/// A string of `n` spaces.
pub fn indentation(n: usize) -> (r: String)
    ensures
        r@ == spaces(n as nat),
{
    let mut r = String::new();
    let mut i: usize = 0;
    while i < n
        invariant
            i <= n,
            r@ == spaces(i as nat),
        decreases n - i,
    {
        proof {
            reveal_strlit(" ");
        }
        r.append(" ");
        i = i + 1;
    }
    r
}

/// The strict lexicographic order on character sequences, characters compared
/// by code point: at the first position where `a` and `b` differ `a` holds the
/// smaller character, or `a` ends there and `b` goes on.
pub open spec fn key_lt(a: Seq<char>, b: Seq<char>) -> bool
    decreases a.len(),
{
    if b.len() == 0 {
        false
    } else if a.len() == 0 {
        true
    } else if a[0] == b[0] {
        key_lt(a.drop_first(), b.drop_first())
    } else {
        a[0] < b[0]
    }
}

/// No key comes before itself.
pub proof fn lemma_key_lt_irreflexive(a: Seq<char>)
    ensures
        !key_lt(a, a),
    decreases a.len(),
{
    if a.len() > 0 {
        lemma_key_lt_irreflexive(a.drop_first());
    }
}

/// Of two keys at most one comes before the other.
pub proof fn lemma_key_lt_asymmetric(a: Seq<char>, b: Seq<char>)
    requires
        key_lt(a, b),
    ensures
        !key_lt(b, a),
    decreases a.len(),
{
    if a.len() > 0 && b.len() > 0 && a[0] == b[0] {
        lemma_key_lt_asymmetric(a.drop_first(), b.drop_first());
    }
}

/// The order on keys is transitive.
pub proof fn lemma_key_lt_transitive(a: Seq<char>, b: Seq<char>, c: Seq<char>)
    requires
        key_lt(a, b),
        key_lt(b, c),
    ensures
        key_lt(a, c),
    decreases a.len(),
{
    if a.len() > 0 && b.len() > 0 && c.len() > 0 && a[0] == b[0] && b[0] == c[0] {
        lemma_key_lt_transitive(a.drop_first(), b.drop_first(), c.drop_first());
    }
}

/// Two different keys are ordered one way or the other.
pub proof fn lemma_key_lt_total(a: Seq<char>, b: Seq<char>)
    ensures
        key_lt(a, b) || a == b || key_lt(b, a),
    decreases a.len(),
{
    if a.len() > 0 && b.len() > 0 && a[0] == b[0] {
        lemma_key_lt_total(a.drop_first(), b.drop_first());
        if a.drop_first() == b.drop_first() {
            assert(a =~= seq![a[0]] + a.drop_first());
        }
    }
}

/// How two keys stand to each other.
#[derive(Clone, Copy, Debug, PartialEq, Eq, Structural)]
pub enum KeyOrder {
    Before,
    Same,
    After,
}

/// The place of `a` relative to `b` in the order `key_lt`.
pub open spec fn key_order(a: Seq<char>, b: Seq<char>) -> KeyOrder {
    if key_lt(a, b) {
        KeyOrder::Before
    } else if a == b {
        KeyOrder::Same
    } else {
        KeyOrder::After
    }
}

/// Compares two strings character by character.
#[verifier::loop_isolation(false)]
pub fn compare_keys(a: &str, b: &str) -> (r: KeyOrder)
    ensures
        r == key_order(a@, b@),
        r == KeyOrder::Before <==> key_lt(a@, b@),
        r == KeyOrder::Same <==> a@ == b@,
        r == KeyOrder::After <==> key_lt(b@, a@),
{
    proof {
        lemma_key_lt_irreflexive(a@);
        lemma_key_lt_total(a@, b@);
        if key_lt(a@, b@) {
            lemma_key_lt_asymmetric(a@, b@);
        }
    }
    let mut ia = a.chars();
    let mut ib = b.chars();
    loop
        invariant
            ia.decrease() is Some,
            key_lt(a@, b@) == key_lt(ia.remaining(), ib.remaining()),
            (a@ == b@) == (ia.remaining() == ib.remaining()),
        decreases ia.decrease()->0,
    {
        let ghost ra = ia.remaining();
        let ghost rb = ib.remaining();
        let x = ia.next();
        let y = ib.next();
        match (x, y) {
            (None, None) => {
                assert(ra =~= rb);
                return KeyOrder::Same;
            },
            (None, Some(_)) => {
                return KeyOrder::Before;
            },
            (Some(_), None) => {
                return KeyOrder::After;
            },
            (Some(cx), Some(cy)) => {
                if cx < cy {
                    return KeyOrder::Before;
                } else if cx > cy {
                    return KeyOrder::After;
                }
                proof {
                    assert(ra =~= seq![ra[0]] + ra.drop_first());
                    assert(rb =~= seq![rb[0]] + rb.drop_first());
                }
            },
        }
    }
}

} // verus!
