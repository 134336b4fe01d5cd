//! The persisted key layout of the store.
//!
//! Two namespaces share one ordered keyspace: `record:<id>` holds the archived
//! record, and `byheight:<20-digit zero-padded height>:<id>` holds a pointer
//! back to the identifier. Zero-padding makes lexicographic key order agree
//! with numeric height order, which is what makes range scans by height
//! correct; [`lemma_pad20_order`] is that guarantee.

use vstd::prelude::*;
use vstd::string::StringSliceAdditionalSpecFns;
use vstd::arithmetic::div_mod::{
    lemma_div_is_ordered, lemma_div_pos_is_pos, lemma_fundamental_div_mod,
    lemma_mod_division_less_than_divisor, lemma_multiply_divide_lt,
};
use vstd::arithmetic::power::{lemma_pow_positive, pow};
use crate::lex::{
    lemma_concat_cancel, lemma_lex_asymmetric, lemma_lex_concat, lemma_lex_irreflexive,
    lemma_lex_prefix, lemma_lex_same_len_extend, lex_le, lex_lt,
};

verus! {

pub open spec fn pow10(e: nat) -> int {
    pow(10, e)
}

/// The decimal digits of `h`, zero-padded to exactly `n` places, as ASCII
/// bytes, most significant first.
pub open spec fn spec_pad_digits(h: int, n: nat) -> Seq<u8>
    decreases n,
{
    if n == 0 {
        Seq::empty()
    } else {
        seq![(48 + ((h / pow10((n - 1) as nat)) % 10)) as u8]
            + spec_pad_digits(h % pow10((n - 1) as nat), (n - 1) as nat)
    }
}

/// A height as 20 zero-padded decimal digits; 20 places hold every `u64`.
pub open spec fn spec_pad20(h: u64) -> Seq<u8> {
    spec_pad_digits(h as int, 20)
}

/// The two concrete powers of ten that bound a `u64` height.
pub proof fn lemma_pow10_values()
    ensures
        pow10(19) == 10000000000000000000,
        pow10(20) == 100000000000000000000,
        (u64::MAX as int) < pow10(20),
{
    reveal(pow);
    assert(pow10(0) == 1);
    assert(pow10(1) == 10 * pow10(0));
    assert(pow10(2) == 10 * pow10(1));
    assert(pow10(3) == 10 * pow10(2));
    assert(pow10(4) == 10 * pow10(3));
    assert(pow10(5) == 10 * pow10(4));
    assert(pow10(6) == 10 * pow10(5));
    assert(pow10(7) == 10 * pow10(6));
    assert(pow10(8) == 10 * pow10(7));
    assert(pow10(9) == 10 * pow10(8));
    assert(pow10(10) == 10 * pow10(9));
    assert(pow10(11) == 10 * pow10(10));
    assert(pow10(12) == 10 * pow10(11));
    assert(pow10(13) == 10 * pow10(12));
    assert(pow10(14) == 10 * pow10(13));
    assert(pow10(15) == 10 * pow10(14));
    assert(pow10(16) == 10 * pow10(15));
    assert(pow10(17) == 10 * pow10(16));
    assert(pow10(18) == 10 * pow10(17));
    assert(pow10(19) == 10 * pow10(18));
    assert(pow10(20) == 10 * pow10(19));
}

pub proof fn lemma_pad_len(h: int, n: nat)
    ensures
        spec_pad_digits(h, n).len() == n,
    decreases n,
{
    if n > 0 {
        lemma_pad_len(h % pow10((n - 1) as nat), (n - 1) as nat);
    }
}

/// Zero-padded decimal encoding is strictly monotone: smaller heights get
/// lexicographically smaller digit strings.
pub proof fn lemma_pad_mono(h1: int, h2: int, n: nat)
    requires
        0 <= h1 < h2,
        h2 < pow10(n),
    ensures
        lex_lt(spec_pad_digits(h1, n), spec_pad_digits(h2, n)),
    decreases n,
{
    reveal(pow);
    if n == 0 {
        assert(pow10(0) == 1);
        assert(false);
    } else {
        let m = (n - 1) as nat;
        let p = pow10(m);
        lemma_pow_positive(10, m);
        assert(pow10(n) == 10 * p);
        let q1 = h1 / p;
        let q2 = h2 / p;
        lemma_div_pos_is_pos(h1, p);
        lemma_div_is_ordered(h1, h2, p);
        lemma_multiply_divide_lt(h2, p, 10);
        assert(0 <= q1 <= q2 < 10);
        let a = spec_pad_digits(h1, n);
        let b = spec_pad_digits(h2, n);
        lemma_pad_len(h1 % p, m);
        lemma_pad_len(h2 % p, m);
        assert(a[0] == (48 + q1 % 10) as u8);
        assert(b[0] == (48 + q2 % 10) as u8);
        assert(q1 % 10 == q1 && q2 % 10 == q2);
        if q1 < q2 {
            assert(a[0] < b[0]);
            assert(lex_lt(a, b));
        } else {
            lemma_fundamental_div_mod(h1, p);
            lemma_fundamental_div_mod(h2, p);
            let r1 = h1 % p;
            let r2 = h2 % p;
            lemma_mod_division_less_than_divisor(h1, p);
            lemma_mod_division_less_than_divisor(h2, p);
            assert(0 <= r1 < r2 < p);
            lemma_pad_mono(r1, r2, m);
            assert(a.drop_first() =~= spec_pad_digits(r1, m));
            assert(b.drop_first() =~= spec_pad_digits(r2, m));
            assert(a[0] == b[0]);
            assert(lex_lt(a, b));
        }
    }
}

/// Lexicographic order of 20-digit padded heights is exactly numeric order.
pub proof fn lemma_pad20_order(h1: u64, h2: u64)
    ensures
        lex_lt(spec_pad20(h1), spec_pad20(h2)) <==> h1 < h2,
        spec_pad20(h1) == spec_pad20(h2) <==> h1 == h2,
{
    lemma_pow10_values();
    if h1 < h2 {
        lemma_pad_mono(h1 as int, h2 as int, 20);
        lemma_lex_asymmetric(spec_pad20(h1), spec_pad20(h2));
    } else if h2 < h1 {
        lemma_pad_mono(h2 as int, h1 as int, 20);
        lemma_lex_asymmetric(spec_pad20(h2), spec_pad20(h1));
    } else {
        lemma_lex_irreflexive(spec_pad20(h1));
    }
}

/// `record:` — the primary namespace prefix.
pub open spec fn record_prefix() -> Seq<u8> {
    seq![114u8, 101u8, 99u8, 111u8, 114u8, 100u8, 58u8]
}

/// `byheight:` — the secondary (height index) namespace prefix.
pub open spec fn byheight_prefix() -> Seq<u8> {
    seq![98u8, 121u8, 104u8, 101u8, 105u8, 103u8, 104u8, 116u8, 58u8]
}

/// `record:<id>`
pub open spec fn spec_primary_key(sig: Seq<u8>) -> Seq<u8> {
    record_prefix() + sig
}

/// `byheight:<padded height>:` — the prefix shared by all index entries at one
/// height, and the scan bound for that height.
pub open spec fn spec_height_bound_key(h: u64) -> Seq<u8> {
    byheight_prefix() + spec_pad20(h) + seq![58u8]
}

/// `byheight:<padded height>:<id>`
pub open spec fn spec_secondary_key(h: u64, sig: Seq<u8>) -> Seq<u8> {
    spec_height_bound_key(h) + sig
}

pub proof fn lemma_primary_key_injective(s1: Seq<u8>, s2: Seq<u8>)
    requires
        spec_primary_key(s1) == spec_primary_key(s2),
    ensures
        s1 == s2,
{
    lemma_concat_cancel(record_prefix(), s1, s2);
}

pub proof fn lemma_secondary_key_injective(h1: u64, s1: Seq<u8>, h2: u64, s2: Seq<u8>)
    requires
        spec_secondary_key(h1, s1) == spec_secondary_key(h2, s2),
    ensures
        h1 == h2,
        s1 == s2,
{
    lemma_pad_len(h1 as int, 20);
    lemma_pad_len(h2 as int, 20);
    if h1 != h2 {
        lemma_pad20_order(h1, h2);
        assert(spec_pad20(h1) != spec_pad20(h2));
        let i = choose|i: int| 0 <= i < 20 && spec_pad20(h1)[i] != spec_pad20(h2)[i];
        assert(exists|i: int| 0 <= i < 20 && spec_pad20(h1)[i] != spec_pad20(h2)[i]) by {
            if forall|i: int| 0 <= i < 20 ==> spec_pad20(h1)[i] == spec_pad20(h2)[i] {
                assert(spec_pad20(h1) =~= spec_pad20(h2));
            }
        }
        assert(spec_secondary_key(h1, s1)[9 + i] == spec_pad20(h1)[i]);
        assert(spec_secondary_key(h2, s2)[9 + i] == spec_pad20(h2)[i]);
        assert(false);
    }
    lemma_concat_cancel(spec_height_bound_key(h1), s1, s2);
}

/// Primary keys and height-index keys can never collide: the namespaces
/// disagree on the first byte.
pub proof fn lemma_namespaces_disjoint(s1: Seq<u8>, h: u64, s2: Seq<u8>)
    ensures
        spec_primary_key(s1) != spec_secondary_key(h, s2),
{
    assert(spec_primary_key(s1)[0] == 114u8);
    assert(spec_secondary_key(h, s2)[0] == 98u8);
}

/// Position of an index key relative to the scan bounds: the comparisons on
/// bytes decide exactly as the comparisons on heights do.
pub proof fn lemma_secondary_key_range(h: u64, sig: Seq<u8>, start: u64, bound: u64)
    ensures
        lex_le(spec_height_bound_key(start), spec_secondary_key(h, sig)) <==> start <= h,
        lex_lt(spec_secondary_key(h, sig), spec_height_bound_key(bound)) <==> h < bound,
{
    lemma_pad_len(h as int, 20);
    lemma_pad_len(start as int, 20);
    lemma_pad_len(bound as int, 20);
    let bh = byheight_prefix();
    let tail = seq![58u8] + sig;
    assert(spec_secondary_key(h, sig) =~= bh + (spec_pad20(h) + tail));
    assert(spec_height_bound_key(start) =~= bh + (spec_pad20(start) + seq![58u8]));
    assert(spec_height_bound_key(bound) =~= bh + (spec_pad20(bound) + seq![58u8]));

    // lower bound
    if start < h {
        lemma_pad20_order(start, h);
        lemma_lex_same_len_extend(spec_pad20(start), spec_pad20(h), seq![58u8], tail);
        lemma_lex_concat(bh, spec_pad20(start) + seq![58u8], spec_pad20(h) + tail);
        assert(lex_lt(spec_height_bound_key(start), spec_secondary_key(h, sig)));
    } else if start == h {
        assert(spec_secondary_key(h, sig) =~= spec_height_bound_key(start) + sig);
        lemma_lex_prefix(spec_height_bound_key(start), sig);
        assert(lex_le(spec_height_bound_key(start), spec_secondary_key(h, sig)));
    } else {
        lemma_pad20_order(h, start);
        lemma_lex_same_len_extend(spec_pad20(h), spec_pad20(start), tail, seq![58u8]);
        lemma_lex_concat(bh, spec_pad20(h) + tail, spec_pad20(start) + seq![58u8]);
        assert(lex_lt(spec_secondary_key(h, sig), spec_height_bound_key(start)));
        lemma_lex_asymmetric(spec_secondary_key(h, sig), spec_height_bound_key(start));
    }

    // upper bound
    if h < bound {
        lemma_pad20_order(h, bound);
        lemma_lex_same_len_extend(spec_pad20(h), spec_pad20(bound), tail, seq![58u8]);
        lemma_lex_concat(bh, spec_pad20(h) + tail, spec_pad20(bound) + seq![58u8]);
        assert(lex_lt(spec_secondary_key(h, sig), spec_height_bound_key(bound)));
    } else if h == bound {
        assert(spec_secondary_key(h, sig) =~= spec_height_bound_key(bound) + sig);
        lemma_lex_prefix(spec_height_bound_key(bound), sig);
        if lex_lt(spec_secondary_key(h, sig), spec_height_bound_key(bound)) {
            if sig.len() > 0 {
                lemma_lex_asymmetric(spec_height_bound_key(bound), spec_secondary_key(h, sig));
            } else {
                assert(spec_secondary_key(h, sig) =~= spec_height_bound_key(bound));
                lemma_lex_irreflexive(spec_height_bound_key(bound));
            }
            assert(false);
        }
    } else {
        lemma_pad20_order(bound, h);
        lemma_lex_same_len_extend(spec_pad20(bound), spec_pad20(h), seq![58u8], tail);
        lemma_lex_concat(bh, spec_pad20(bound) + seq![58u8], spec_pad20(h) + tail);
        assert(lex_lt(spec_height_bound_key(bound), spec_secondary_key(h, sig)));
        lemma_lex_asymmetric(spec_height_bound_key(bound), spec_secondary_key(h, sig));
    }
}

/// `10^e` at runtime.
fn pow10_u64(e: u64) -> (r: u64)
    requires
        e <= 19,
    ensures
        r as int == pow10(e as nat),
{
    proof {
        lemma_pow10_values();
        reveal(pow);
        assert(pow10(0) == 1);
    }
    let mut r: u64 = 1;
    let mut i: u64 = 0;
    while i < e
        invariant
            i <= e <= 19,
            r as int == pow10(i as nat),
        decreases e - i,
    {
        proof {
            lemma_pow10_values();
            reveal(pow);
            assert(pow10((i + 1) as nat) == 10 * pow10(i as nat));
            vstd::arithmetic::power::lemma_pow_increases(10, (i + 1) as nat, 19);
        }
        r = r * 10;
        i = i + 1;
    }
    r
}

fn pad_digits(h: u64, n: u64) -> (v: Vec<u8>)
    requires
        n <= 20,
        (h as int) < pow10(n as nat),
    ensures
        v@ == spec_pad_digits(h as int, n as nat),
    decreases n,
{
    if n == 0 {
        let v: Vec<u8> = Vec::new();
        proof {
            assert(v@ =~= spec_pad_digits(h as int, 0));
        }
        v
    } else {
        let p = pow10_u64(n - 1);
        proof {
            lemma_pow_positive(10, (n - 1) as nat);
        }
        let q = h / p;
        let rem = h % p;
        let mut v: Vec<u8> = Vec::new();
        v.push((48 + (q % 10)) as u8);
        proof {
            lemma_mod_division_less_than_divisor(h as int, p as int);
        }
        let mut rest = pad_digits(rem, n - 1);
        v.append(&mut rest);
        proof {
            assert(v@ =~= seq![(48 + ((h as int / pow10((n - 1) as nat)) % 10)) as u8]
                + spec_pad_digits(h as int % pow10((n - 1) as nat), (n - 1) as nat));
        }
        v
    }
}

/// A height as 20 zero-padded ASCII decimal digits.
pub fn pad20(h: u64) -> (v: Vec<u8>)
    ensures
        v@ == spec_pad20(h),
{
    proof {
        lemma_pow10_values();
    }
    pad_digits(h, 20)
}

/// Append a byte slice to a key under construction.
pub fn push_bytes(v: &mut Vec<u8>, b: &[u8])
    ensures
        final(v)@ == old(v)@ + b@,
{
    let mut i: usize = 0;
    while i < b.len()
        invariant
            i <= b@.len(),
            v@ == old(v)@ + b@.take(i as int),
        decreases b@.len() - i,
    {
        v.push(b[i]);
        proof {
            assert(old(v)@ + b@.take(i + 1) =~= (old(v)@ + b@.take(i as int)).push(b@[i as int]));
        }
        i += 1;
    }
    proof {
        assert(b@.take(b@.len() as int) =~= b@);
    }
}

/// The primary key `record:<id>` of an identifier.
pub fn primary_key(signature: &str) -> (k: Vec<u8>)
    ensures
        k@ == spec_primary_key(signature.spec_bytes()),
{
    let mut k: Vec<u8> = Vec::new();
    k.push(114u8);
    k.push(101u8);
    k.push(99u8);
    k.push(111u8);
    k.push(114u8);
    k.push(100u8);
    k.push(58u8);
    proof {
        assert(k@ =~= record_prefix());
    }
    push_bytes(&mut k, signature.as_bytes());
    k
}

/// The bound key `byheight:<padded height>:` that opens the index range of a
/// height.
pub fn height_bound_key(height: u64) -> (k: Vec<u8>)
    ensures
        k@ == spec_height_bound_key(height),
{
    let mut k: Vec<u8> = Vec::new();
    k.push(98u8);
    k.push(121u8);
    k.push(104u8);
    k.push(101u8);
    k.push(105u8);
    k.push(103u8);
    k.push(104u8);
    k.push(116u8);
    k.push(58u8);
    proof {
        assert(k@ =~= byheight_prefix());
    }
    let mut digits = pad20(height);
    k.append(&mut digits);
    k.push(58u8);
    proof {
        assert(k@ =~= spec_height_bound_key(height));
    }
    k
}

/// The secondary key `byheight:<padded height>:<id>` of a record.
pub fn secondary_key(height: u64, signature: &str) -> (k: Vec<u8>)
    ensures
        k@ == spec_secondary_key(height, signature.spec_bytes()),
{
    let mut k = height_bound_key(height);
    push_bytes(&mut k, signature.as_bytes());
    k
}

} // verus!
