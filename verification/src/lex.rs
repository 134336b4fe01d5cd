//! Lexicographic ordering of byte strings.
//!
//! The store keeps its entries sorted by this order; the height index relies
//! on it agreeing with numeric order over zero-padded decimal keys.

use vstd::prelude::*;

verus! {

/// Strict lexicographic order on byte strings: a proper prefix precedes its
/// extensions, and otherwise the first differing byte decides.
pub open spec fn lex_lt(a: Seq<u8>, b: Seq<u8>) -> bool
    decreases a.len(),
{
    if b.len() == 0 {
        false
    } else if a.len() == 0 {
        true
    } else if a[0] < b[0] {
        true
    } else if a[0] > b[0] {
        false
    } else {
        lex_lt(a.drop_first(), b.drop_first())
    }
}

pub open spec fn lex_le(a: Seq<u8>, b: Seq<u8>) -> bool {
    lex_lt(a, b) || a == b
}

pub proof fn lemma_lex_irreflexive(a: Seq<u8>)
    ensures
        !lex_lt(a, a),
    decreases a.len(),
{
    if a.len() > 0 {
        lemma_lex_irreflexive(a.drop_first());
    }
}

pub proof fn lemma_lex_trichotomy(a: Seq<u8>, b: Seq<u8>)
    ensures
        lex_lt(a, b) || lex_lt(b, a) || a == b,
    decreases a.len(),
{
    if a.len() == 0 && b.len() == 0 {
        assert(a =~= b);
    } else if a.len() > 0 && b.len() > 0 && a[0] == b[0] {
        lemma_lex_trichotomy(a.drop_first(), b.drop_first());
        if a.drop_first() == b.drop_first() {
            assert(a.len() == b.len());
            assert forall|i: int| 0 <= i < a.len() implies a[i] == b[i] by {
                if i > 0 {
                    assert(a[i] == a.drop_first()[i - 1]);
                    assert(b[i] == b.drop_first()[i - 1]);
                }
            }
            assert(a =~= b);
        }
    }
}

pub proof fn lemma_lex_transitive(a: Seq<u8>, b: Seq<u8>, c: Seq<u8>)
    requires
        lex_lt(a, b),
        lex_lt(b, c),
    ensures
        lex_lt(a, c),
    decreases a.len() + b.len() + c.len(),
{
    if a.len() > 0 && b.len() > 0 && c.len() > 0 && a[0] == b[0] && b[0] == c[0] {
        lemma_lex_transitive(a.drop_first(), b.drop_first(), c.drop_first());
    }
}

/// Strict order excludes equality, and excludes the reverse order.
pub proof fn lemma_lex_asymmetric(a: Seq<u8>, b: Seq<u8>)
    requires
        lex_lt(a, b),
    ensures
        a != b,
        !lex_lt(b, a),
{
    if a == b {
        lemma_lex_irreflexive(a);
    }
    if lex_lt(b, a) {
        lemma_lex_transitive(a, b, a);
        lemma_lex_irreflexive(a);
    }
}

/// A shared prefix neither creates nor hides an ordering.
pub proof fn lemma_lex_concat(p: Seq<u8>, x: Seq<u8>, y: Seq<u8>)
    ensures
        lex_lt(p + x, p + y) <==> lex_lt(x, y),
    decreases p.len(),
{
    if p.len() == 0 {
        assert(p + x =~= x);
        assert(p + y =~= y);
    } else {
        assert((p + x).drop_first() =~= p.drop_first() + x);
        assert((p + y).drop_first() =~= p.drop_first() + y);
        assert((p + x).len() > 0 && (p + y).len() > 0);
        assert((p + x)[0] == p[0] && (p + y)[0] == p[0]);
        lemma_lex_concat(p.drop_first(), x, y);
    }
}

/// A byte string precedes every proper extension of itself.
pub proof fn lemma_lex_prefix(p: Seq<u8>, x: Seq<u8>)
    ensures
        lex_le(p, p + x),
        x.len() > 0 ==> lex_lt(p, p + x),
    decreases p.len(),
{
    if p.len() == 0 {
        assert(p + x =~= x);
        if x.len() == 0 {
            assert(p =~= p + x);
        }
    } else {
        assert((p + x).drop_first() =~= p.drop_first() + x);
        assert((p + x)[0] == p[0]);
        lemma_lex_prefix(p.drop_first(), x);
        if x.len() == 0 {
            assert(p =~= p + x);
        } else {
            assert(lex_lt(p.drop_first(), p.drop_first() + x));
        }
    }
}

/// Once byte strings of equal length are strictly ordered, any suffixes
/// preserve that order.
pub proof fn lemma_lex_same_len_extend(x: Seq<u8>, y: Seq<u8>, u: Seq<u8>, v: Seq<u8>)
    requires
        x.len() == y.len(),
        lex_lt(x, y),
    ensures
        lex_lt(x + u, y + v),
    decreases x.len(),
{
    assert(y.len() > 0);
    assert((x + u).len() > 0 && (y + v).len() > 0);
    assert((x + u)[0] == x[0] && (y + v)[0] == y[0]);
    if x[0] == y[0] {
        assert((x + u).drop_first() =~= x.drop_first() + u);
        assert((y + v).drop_first() =~= y.drop_first() + v);
        lemma_lex_same_len_extend(x.drop_first(), y.drop_first(), u, v);
    }
}

/// Every byte string lying between two extensions of a common prefix starts
/// with that prefix.
pub proof fn lemma_lex_sandwich(p: Seq<u8>, a: Seq<u8>, b: Seq<u8>, k: Seq<u8>)
    requires
        lex_le(p + a, k),
        lex_lt(k, p + b),
    ensures
        k.len() >= p.len(),
        k.take(p.len() as int) == p,
    decreases p.len(),
{
    if p.len() == 0 {
        assert(k.take(0) =~= p);
    } else {
        assert((p + a).len() > 0 && (p + b).len() > 0);
        assert((p + a)[0] == p[0] && (p + b)[0] == p[0]);
        if k.len() == 0 {
            assert(!lex_lt(p + a, k));
            assert(false);
        }
        if k[0] < p[0] {
            assert(!lex_lt(p + a, k) && p + a != k);
            assert(false);
        }
        if k[0] > p[0] {
            assert(!lex_lt(k, p + b));
            assert(false);
        }
        assert((p + a).drop_first() =~= p.drop_first() + a);
        assert((p + b).drop_first() =~= p.drop_first() + b);
        if p + a == k {
            assert(p.drop_first() + a =~= k.drop_first());
        }
        lemma_lex_sandwich(p.drop_first(), a, b, k.drop_first());
        assert(k.take(p.len() as int) =~= seq![k[0]] + k.drop_first().take(p.len() - 1));
        assert(p =~= seq![p[0]] + p.drop_first());
        assert(k.drop_first().take(p.len() - 1) == p.drop_first());
        assert(k.take(p.len() as int) =~= p);
    }
}

/// Equal concatenations under a common prefix have equal suffixes.
pub proof fn lemma_concat_cancel(p: Seq<u8>, x: Seq<u8>, y: Seq<u8>)
    requires
        p + x == p + y,
    ensures
        x == y,
{
    assert(x =~= (p + x).skip(p.len() as int));
    assert(y =~= (p + y).skip(p.len() as int));
}

/// Runtime comparison realizing [`lex_lt`].
pub fn lex_lt_bytes(a: &Vec<u8>, b: &Vec<u8>) -> (r: bool)
    ensures
        r == lex_lt(a@, b@),
{
    let mut i: usize = 0;
    proof {
        assert(a@.skip(0) =~= a@);
        assert(b@.skip(0) =~= b@);
    }
    while i < a.len() && i < b.len()
        invariant
            i <= a.len() && i <= b.len(),
            lex_lt(a@, b@) == lex_lt(a@.skip(i as int), b@.skip(i as int)),
        decreases a.len() - i,
    {
        let x = a[i];
        let y = b[i];
        proof {
            assert(a@.skip(i as int).len() > 0 && b@.skip(i as int).len() > 0);
            assert(a@.skip(i as int)[0] == a@[i as int]);
            assert(b@.skip(i as int)[0] == b@[i as int]);
        }
        if x < y {
            return true;
        }
        if x > y {
            return false;
        }
        proof {
            assert(a@.skip(i as int).drop_first() =~= a@.skip(i + 1));
            assert(b@.skip(i as int).drop_first() =~= b@.skip(i + 1));
        }
        i += 1;
    }
    if i == a.len() && i < b.len() {
        proof {
            assert(a@.skip(i as int).len() == 0 && b@.skip(i as int).len() > 0);
        }
        true
    } else {
        proof {
            assert(b@.skip(i as int).len() == 0);
            if a@.skip(i as int).len() == 0 {
                assert(!lex_lt(a@.skip(i as int), b@.skip(i as int)));
            }
        }
        false
    }
}

} // verus!
