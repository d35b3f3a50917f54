//! Fiat-Shamir challenges: SHA-256 over a big-endian retry counter followed by
//! the canonical encodings of what the challenge binds.

use vstd::prelude::*;
use vstd::arithmetic::div_mod::{lemma_mul_mod_noop_left, lemma_mul_mod_noop_right, lemma_small_mod};
use vstd::arithmetic::mul::lemma_mul_is_associative;
use crate::field::{Fr, be_value, le_value, modulus, fmul, fr_from_u128, fr_from_repr, fr_inverse};
use crate::group::{sha256, sha256_of};

verus! {

/// The eight big-endian bytes of `n`.
pub open spec fn u64_be(n: u64) -> Seq<u8> {
    Seq::new(8, |i: int| (n >> ((56 - 8 * i) as u64)) as u8)
}

/// The multiplicative inverse of `a` in the field, where there is one.
pub open spec fn finv(a: int) -> int {
    choose|b: int| 0 <= b < modulus() && fmul(a, b) == 1
}

/// The 128-bit candidate that retry `k` gives for a round challenge.
pub open spec fn round_candidate(body: Seq<u8>, k: u64) -> int {
    be_value(sha256_of(u64_be(k) + body).subrange(0, 16))
}

/// The full-width candidate that retry `k` gives for `r` or a KZG point.
pub open spec fn wide_candidate(body: Seq<u8>, k: u64) -> int {
    le_value(sha256_of(u64_be(k) + body))
}

/// Retry `k` gives a usable round challenge: an invertible one.
pub open spec fn round_ok(body: Seq<u8>, k: u64) -> bool {
    round_candidate(body, k) % modulus() != 0
}

/// Retry `k` gives a usable full-width challenge: canonical and invertible.
pub open spec fn wide_ok(body: Seq<u8>, k: u64) -> bool {
    0 < wide_candidate(body, k) < modulus()
}

/// No retry over `body` gives a usable round challenge.
pub open spec fn round_fails(body: Seq<u8>) -> bool {
    forall|k: u64| !round_ok(body, k)
}

/// No retry over `body` gives a usable full-width challenge.
pub open spec fn wide_fails(body: Seq<u8>) -> bool {
    forall|k: u64| !wide_ok(body, k)
}

/// Some byte string exhausts every retry of a challenge derivation: the only
/// way in which deriving a challenge can fail.
pub open spec fn challenge_exhausted() -> bool {
    (exists|b: Seq<u8>| #[trigger] round_fails(b)) || (exists|b: Seq<u8>| #[trigger] wide_fails(b))
}

/// `k` is the first retry that gives a usable round challenge.
pub open spec fn first_round_ok(body: Seq<u8>, k: u64) -> bool {
    round_ok(body, k) && forall|j: u64| j < k ==> !round_ok(body, j)
}

/// `k` is the first retry that gives a usable full-width challenge.
pub open spec fn first_wide_ok(body: Seq<u8>, k: u64) -> bool {
    wide_ok(body, k) && forall|j: u64| j < k ==> !wide_ok(body, j)
}

/// The round challenge pair `(c, c_inv)` that `body` determines: the digest of
/// the first usable retry is `c_inv`, its inverse is `c`.
pub open spec fn round_challenge(body: Seq<u8>) -> (int, int) {
    let k = choose|k: u64| first_round_ok(body, k);
    (finv(round_candidate(body, k)), round_candidate(body, k))
}

/// The full-width challenge that `body` determines.
pub open spec fn wide_challenge(body: Seq<u8>) -> int {
    wide_candidate(body, choose|k: u64| first_wide_ok(body, k))
}

/// At most one retry is the first usable one.
proof fn lemma_first_unique(body: Seq<u8>, k1: u64, k2: u64, wide: bool)
    requires
        wide ==> first_wide_ok(body, k1) && first_wide_ok(body, k2),
        !wide ==> first_round_ok(body, k1) && first_round_ok(body, k2),
    ensures
        k1 == k2,
{
}

/// Inverses are unique.
pub proof fn lemma_inverse_unique(a: int, b1: int, b2: int)
    requires
        0 <= b1 < modulus(),
        0 <= b2 < modulus(),
        fmul(a, b1) == 1,
        fmul(a, b2) == 1,
    ensures
        b1 == b2,
{
    let m = modulus();
    lemma_mul_mod_noop_right(b1, a * b2, m);
    lemma_mul_mod_noop_right(b2, a * b1, m);
    lemma_mul_is_associative(b1, a, b2);
    lemma_mul_is_associative(b2, a, b1);
    assert(b1 * (a * b2) == b2 * (a * b1)) by (nonlinear_arith);
    lemma_small_mod(b1 as nat, m as nat);
    lemma_small_mod(b2 as nat, m as nat);
    assert(b1 * 1 == b1);
    assert(b2 * 1 == b2);
}

/// The big-endian bytes of the retry counter.
pub fn u64_to_be(n: u64) -> (r: Vec<u8>)
    ensures
        r@ == u64_be(n),
{
    let mut r: Vec<u8> = Vec::new();
    let mut i: u64 = 0;
    while i < 8
        invariant
            i <= 8,
            r@.len() == i,
            forall|j: int| 0 <= j < i ==> r@[j] == (n >> ((56 - 8 * j) as u64)) as u8,
        decreases 8 - i,
    {
        r.push((n >> (56 - 8 * i)) as u8);
        i = i + 1;
    }
    proof {
        assert(r@ =~= u64_be(n));
    }
    r
}

/// Appends `b` to `buf`.
pub fn append_bytes(buf: &mut Vec<u8>, b: &[u8])
    ensures
        final(buf)@ == old(buf)@ + b@,
{
    let mut i: usize = 0;
    while i < b.len()
        invariant
            i <= b@.len(),
            buf@ == old(buf)@ + b@.subrange(0, i as int),
        decreases b@.len() - i,
    {
        buf.push(b[i]);
        proof {
            assert(b@.subrange(0, i + 1) =~= b@.subrange(0, i as int).push(b@[i as int]));
        }
        i = i + 1;
    }
    proof {
        assert(b@.subrange(0, b@.len() as int) =~= b@);
    }
}

fn hash_with_counter(k: u64, body: &Vec<u8>) -> (d: [u8; 32])
    ensures
        d@ == sha256_of(u64_be(k) + body@),
{
    let mut input = u64_to_be(k);
    append_bytes(&mut input, body.as_slice());
    sha256(&input)
}

/// The challenge of a GIPA round: the first retry whose 128-bit digest prefix
/// is invertible gives `c_inv`, and `c` is its inverse (so that the short value
/// multiplies the expensive side). `None` only when every retry fails.
pub fn derive_round_challenge(body: &Vec<u8>) -> (r: Option<(Fr, Fr)>)
    ensures
        r.is_none() <==> round_fails(body@),
        r.is_none() ==> challenge_exhausted(),
        r.is_some() ==> {
            let (c, c_inv) = r.unwrap();
            &&& c.wf() && c_inv.wf()
            &&& (c.value(), c_inv.value()) == round_challenge(body@)
            &&& fmul(c.value(), c_inv.value()) == 1
        },
{
    let mut k: u64 = 0;
    loop
        invariant
            forall|j: u64| j < k ==> !round_ok(body@, j),
        decreases u64::MAX - k,
    {
        let d = hash_with_counter(k, body);
        let cand = fr_from_u128(d.as_slice());
        proof {
            assert(d@.subrange(0, 16) == sha256_of(u64_be(k) + body@).subrange(0, 16));
            crate::field::lemma_le_value_bound(cand.bytes@);
            lemma_small_mod(cand.value() as nat, modulus() as nat);
            assert(round_candidate(body@, k) == cand.value());
        }
        match fr_inverse(&cand) {
            Some(inv) => {
                proof {
                    assert(first_round_ok(body@, k));
                    let kk = choose|kk: u64| first_round_ok(body@, kk);
                    lemma_first_unique(body@, k, kk, false);
                    crate::field::lemma_le_value_bound(inv.bytes@);
                    assert(0 <= inv.value() < modulus() && fmul(cand.value(), inv.value()) == 1);
                    let b = finv(cand.value());
                    lemma_inverse_unique(cand.value(), inv.value(), b);
                    lemma_mul_comm_mod(cand.value(), inv.value());
                }
                return Some((inv, cand));
            },
            None => {},
        }
        if k == u64::MAX {
            return None;
        }
        k = k + 1;
    }
}

proof fn lemma_mul_comm_mod(a: int, b: int)
    ensures
        fmul(a, b) == fmul(b, a),
{
    assert(a * b == b * a) by (nonlinear_arith);
}

/// A full-width challenge: the first retry whose whole digest is a canonical,
/// non-zero scalar. `None` only when every retry fails.
pub fn derive_wide_challenge(body: &Vec<u8>) -> (r: Option<Fr>)
    ensures
        r.is_none() <==> wide_fails(body@),
        r.is_none() ==> challenge_exhausted(),
        r.is_some() ==> r.unwrap().wf() && r.unwrap().value() == wide_challenge(body@)
            && r.unwrap().value() != 0,
{
    let mut k: u64 = 0;
    loop
        invariant
            forall|j: u64| j < k ==> !wide_ok(body@, j),
        decreases u64::MAX - k,
    {
        let d = hash_with_counter(k, body);
        proof {
            crate::field::lemma_le_value_bound(d@);
        }
        match fr_from_repr(&d) {
            Some(f) => {
                if !is_zero(&f) {
                    proof {
                        assert(first_wide_ok(body@, k));
                        let kk = choose|kk: u64| first_wide_ok(body@, kk);
                        lemma_first_unique(body@, k, kk, true);
                    }
                    return Some(f);
                }
            },
            None => {},
        }
        proof {
            assert(!wide_ok(body@, k));
        }
        if k == u64::MAX {
            proof {
                assert(wide_fails(body@));
            }
            return None;
        }
        k = k + 1;
    }
}

/// The scalar is zero.
pub fn is_zero(f: &Fr) -> (r: bool)
    ensures
        r == (f.value() == 0),
{
    let mut i: usize = 0;
    while i < 32
        invariant
            i <= 32,
            forall|j: int| 0 <= j < i ==> f.bytes@[j] == 0u8,
        decreases 32 - i,
    {
        if f.bytes[i] != 0 {
            proof {
                lemma_le_nonzero(f.bytes@, i as int);
            }
            return false;
        }
        i = i + 1;
    }
    proof {
        lemma_le_zero(f.bytes@);
    }
    true
}

proof fn lemma_le_zero(s: Seq<u8>)
    requires
        forall|j: int| 0 <= j < s.len() ==> s[j] == 0u8,
    ensures
        le_value(s) == 0,
    decreases s.len(),
{
    if s.len() > 0 {
        lemma_le_zero(s.subrange(1, s.len() as int));
    }
}

proof fn lemma_le_nonzero(s: Seq<u8>, i: int)
    requires
        0 <= i < s.len(),
        s[i] != 0u8,
    ensures
        le_value(s) != 0,
    decreases s.len(),
{
    crate::field::lemma_le_value_bound(s.subrange(1, s.len() as int));
    if i > 0 {
        lemma_le_nonzero(s.subrange(1, s.len() as int), i - 1);
    }
}


/// Round challenges are invertible and depend on the hashed bytes alone: two
/// derivations from the same bytes give the same pair, and `c * c_inv = 1`
/// with neither of them zero.
pub proof fn lemma_round_challenge_law(b1: Seq<u8>, b2: Seq<u8>, c1: Fr, i1: Fr, c2: Fr, i2: Fr)
    requires
        b1 == b2,
        (c1.value(), i1.value()) == round_challenge(b1),
        fmul(c1.value(), i1.value()) == 1,
        (c2.value(), i2.value()) == round_challenge(b2),
    ensures
        c1.value() == c2.value(),
        i1.value() == i2.value(),
        c1.value() != 0 && i1.value() != 0,
{
    if c1.value() == 0 || i1.value() == 0 {
        assert(c1.value() * i1.value() == 0);
        lemma_small_mod(0, modulus() as nat);
    }
}

} // verus!
