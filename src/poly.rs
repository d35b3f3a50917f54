//! The polynomial that a GIPA transcript induces on the final commitment key:
//! `f(X) = prod_i (1 + x_i (r X)^(2^i))`, by its coefficients and in product form.

use vstd::prelude::*;
use vstd::arithmetic::power::{pow, lemma_pow_adds, lemma_pow_distributes};
use vstd::arithmetic::div_mod::{lemma_mul_mod_noop, lemma_add_mod_noop, lemma_small_mod, lemma_mod_bound};
use crate::field::{Fr, modulus, fadd, fmul, fr_add, fr_mul, fr_from_u64};
use crate::commit::all_wf;

verus! {

/// The integer values of a sequence of scalars.
pub open spec fn values(s: Seq<Fr>) -> Seq<int> {
    s.map_values(|f: Fr| f.value())
}

/// Each integer reduced modulo the group order.
pub open spec fn reduce(c: Seq<int>) -> Seq<int> {
    c.map_values(|x: int| x % modulus())
}

/// The coefficients of `prod_i (1 + t_i (r X)^(2^i))` over the integers, lowest
/// degree first: multiplying by the factor of round `i` appends the existing
/// coefficients scaled by `t_i r^(2^i)`.
pub open spec fn coeffs_int(t: Seq<int>, r: int) -> Seq<int>
    decreases t.len(),
{
    if t.len() == 0 {
        seq![1int]
    } else {
        let prev = coeffs_int(t.drop_last(), r);
        let a = t.last() * pow(r, pow(2, (t.len() - 1) as nat) as nat);
        prev + prev.map_values(|c: int| c * a)
    }
}

/// `sum_j c_j z^j` over the integers.
pub open spec fn eval_int(c: Seq<int>, z: int) -> int
    decreases c.len(),
{
    if c.len() == 0 {
        0
    } else {
        c[0] + z * eval_int(c.subrange(1, c.len() as int), z)
    }
}

/// `prod_i (1 + t_i (z r)^(2^i))` over the integers.
pub open spec fn prod_int(t: Seq<int>, z: int, r: int) -> int
    decreases t.len(),
{
    if t.len() == 0 {
        1
    } else {
        prod_int(t.drop_last(), z, r) * (1 + t.last() * pow(z * r, pow(2, (t.len() - 1) as nat) as nat))
    }
}

pub proof fn lemma_modulus_pos()
    ensures
        modulus() > 1,
{
}

proof fn lemma_pow2_pos(i: nat)
    ensures
        pow(2, i) >= 1,
{
    vstd::arithmetic::power::lemma_pow_positive(2, i);
}

pub proof fn lemma_coeffs_len(t: Seq<int>, r: int)
    ensures
        coeffs_int(t, r).len() == pow(2, t.len()),
    decreases t.len(),
{
    reveal(pow);
    if t.len() > 0 {
        lemma_coeffs_len(t.drop_last(), r);
    }
}

proof fn lemma_eval_concat(p: Seq<int>, q: Seq<int>, z: int)
    ensures
        eval_int(p + q, z) == eval_int(p, z) + pow(z, p.len()) * eval_int(q, z),
    decreases p.len(),
{
    reveal(pow);
    if p.len() == 0 {
        assert(p + q =~= q);
    } else {
        let rest = p.subrange(1, p.len() as int);
        assert((p + q).subrange(1, (p + q).len() as int) =~= rest + q);
        lemma_eval_concat(rest, q, z);
        let e = eval_int(rest, z);
        let w = pow(z, rest.len());
        let v = eval_int(q, z);
        assert(z * (e + w * v) == z * e + (z * w) * v) by (nonlinear_arith);
    }
}

proof fn lemma_eval_scale(p: Seq<int>, a: int, z: int)
    ensures
        eval_int(p.map_values(|c: int| c * a), z) == a * eval_int(p, z),
    decreases p.len(),
{
    let s = p.map_values(|c: int| c * a);
    if p.len() > 0 {
        let rest = p.subrange(1, p.len() as int);
        assert(s.subrange(1, s.len() as int) =~= rest.map_values(|c: int| c * a));
        lemma_eval_scale(rest, a, z);
        let e = eval_int(rest, z);
        assert(p[0] * a + z * (a * e) == a * (p[0] + z * e)) by (nonlinear_arith);
    }
}

/// Expanding the product into coefficients and evaluating them at `z` gives
/// the product form at `z`.
pub proof fn lemma_expansion_matches_product(t: Seq<int>, z: int, r: int)
    ensures
        eval_int(coeffs_int(t, r), z) == prod_int(t, z, r),
    decreases t.len(),
{
    if t.len() > 0 {
        let t0 = t.drop_last();
        let prev = coeffs_int(t0, r);
        let e = pow(2, t0.len()) as nat;
        lemma_pow2_pos(t0.len());
        let a = t.last() * pow(r, e);
        lemma_expansion_matches_product(t0, z, r);
        lemma_coeffs_len(t0, r);
        lemma_eval_concat(prev, prev.map_values(|c: int| c * a), z);
        lemma_eval_scale(prev, a, z);
        lemma_pow_distributes(z, r, e);
        let ev = eval_int(prev, z);
        let x = t.last();
        let pz = pow(z, e);
        let pr = pow(r, e);
        assert(ev + pz * ((x * pr) * ev) == ev * (1 + x * (pz * pr))) by (nonlinear_arith);
        assert((t.len() - 1) as nat == t0.len());
        assert(coeffs_int(t, r) == prev + prev.map_values(|c: int| c * a));
        assert(prev.len() == e);
        assert(eval_int(coeffs_int(t, r), z) == ev + pz * (a * ev));
        assert(prod_int(t, z, r) == prod_int(t0, z, r) * (1 + x * pow(z * r, e)));
    } else {
        let one = seq![1int];
        assert(one.subrange(1, 1) =~= Seq::<int>::empty());
        assert(eval_int(one.subrange(1, 1), z) == 0);
        assert(coeffs_int(t, r) == one);
    }
}

/// Evaluating coefficients that were reduced modulo the group order gives the
/// same field element.
pub proof fn lemma_eval_reduce(c: Seq<int>, z: int)
    ensures
        eval_int(reduce(c), z) % modulus() == eval_int(c, z) % modulus(),
    decreases c.len(),
{
    let m = modulus();
    let rc = reduce(c);
    if c.len() > 0 {
        let rest = c.subrange(1, c.len() as int);
        assert(rc.subrange(1, rc.len() as int) =~= reduce(rest));
        lemma_eval_reduce(rest, z);
        let a = eval_int(reduce(rest), z);
        let b = eval_int(rest, z);
        lemma_add_mod_noop(rc[0], z * a, m);
        lemma_add_mod_noop(c[0], z * b, m);
        lemma_mul_mod_noop(z, a, m);
        lemma_mul_mod_noop(z, b, m);
        vstd::arithmetic::div_mod::lemma_mod_mod(c[0], m, 1);
        assert(rc[0] % m == c[0] % m) by {
            vstd::arithmetic::div_mod::lemma_mod_twice(c[0], m);
        }
    }
}

/// The two ways of computing `f(z)` agree in the field: expanding into
/// coefficients (each reduced) and evaluating, or multiplying the factors.
pub proof fn lemma_product_form_agrees(t: Seq<int>, z: int, r: int)
    ensures
        eval_int(reduce(coeffs_int(t, r)), z) % modulus() == prod_int(t, z, r) % modulus(),
{
    lemma_eval_reduce(coeffs_int(t, r), z);
    lemma_expansion_matches_product(t, z, r);
}


/// `((a % m) * ((b % m) * (c % m) % m)) % m == (a * (b * c)) % m`.
proof fn lemma_mul3_mod(a: int, b: int, c: int)
    ensures
        ((a % modulus()) * ((b % modulus()) * (c % modulus()) % modulus())) % modulus()
            == (a * (b * c)) % modulus(),
{
    let m = modulus();
    lemma_mul_mod_noop(b, c, m);
    lemma_mul_mod_noop(a, b * c, m);
}

/// `(x % m) * (x % m) % m` is `x^(2^(i+1)) % m` when `x % m` is `y^(2^i) % m`.
proof fn lemma_square_step(y: int, i: nat)
    ensures
        (pow(y, pow(2, i) as nat) % modulus()) * (pow(y, pow(2, i) as nat) % modulus()) % modulus()
            == pow(y, pow(2, i + 1) as nat) % modulus(),
{
    let m = modulus();
    lemma_pow2_pos(i);
    let e = pow(2, i) as nat;
    reveal(pow);
    assert(pow(2, i + 1) == 2 * pow(2, i));
    lemma_pow_adds(y, e, e);
    assert(pow(2, i + 1) as nat == e + e);
    lemma_mul_mod_noop(pow(y, e), pow(y, e), m);
}

/// The coefficients of `prod_i (1 + t_i (r X)^(2^i))`, lowest degree first,
/// in `O(2^l)` by doubling; `2^l` of them for a transcript of length `l`.
pub fn polynomial_coefficients_from_transcript(transcript: &Vec<Fr>, r_shift: &Fr) -> (c: Vec<Fr>)
    requires
        all_wf(transcript@),
        r_shift.wf(),
        pow(2, transcript@.len()) <= usize::MAX,
    ensures
        c@.len() == pow(2, transcript@.len()),
        all_wf(c@),
        values(c@) == reduce(coeffs_int(values(transcript@), r_shift.value())),
{
    let ghost t = values(transcript@);
    let ghost r = r_shift.value();
    let ghost m = modulus();
    let mut c: Vec<Fr> = Vec::new();
    c.push(fr_from_u64(1));
    let mut power_2_r = *r_shift;
    let mut len: usize = 1;
    let mut i: usize = 0;
    proof {
        lemma_modulus_pos();
        reveal(pow);
        lemma_small_mod(1, m as nat);
        crate::field::lemma_le_value_bound(r_shift.bytes@);
        lemma_small_mod(r as nat, m as nat);
        assert(t.subrange(0, 0) =~= Seq::<int>::empty());
        assert(values(c@) =~= reduce(coeffs_int(t.subrange(0, 0), r)));
        assert(pow(2, 0) == 1);
        assert(pow(r, 1) == r * pow(r, 0));
    }
    while i < transcript.len()
        invariant
            i <= transcript@.len(),
            all_wf(transcript@),
            t == values(transcript@),
            t.len() == transcript@.len(),
            r == r_shift.value(),
            m == modulus(),
            r_shift.wf(),
            pow(2, transcript@.len()) <= usize::MAX,
            power_2_r.wf(),
            power_2_r.value() == pow(r, pow(2, i as nat) as nat) % m,
            len == pow(2, i as nat),
            c@.len() == len,
            all_wf(c@),
            values(c@) == reduce(coeffs_int(t.subrange(0, i as int), r)),
        decreases transcript@.len() - i,
    {
        let a = fr_mul(&transcript[i], &power_2_r);
        let ghost prev = coeffs_int(t.subrange(0, i as int), r);
        let ghost a_int = t[i as int] * pow(r, pow(2, i as nat) as nat);
        proof {
            lemma_coeffs_len(t.subrange(0, i as int), r);
            lemma_pow2_pos(i as nat);
            crate::field::lemma_le_value_bound(transcript@[i as int].bytes@);
            assert(t[i as int] == transcript@[i as int].value());
            assert(transcript@[i as int].wf());
            lemma_small_mod(t[i as int] as nat, m as nat);
            assert forall|k: int| 0 <= k < len implies #[trigger] c@[k].value() == prev[k] % m by {
                assert(values(c@)[k] == c@[k].value());
                assert(reduce(prev)[k] == prev[k] % m);
            }
        }
        let mut j: usize = 0;
        while j < len
            invariant
                j <= len,
                len == prev.len(),
                c@.len() == len + j,
                all_wf(c@),
                a.wf(),
                a.value() == (t[i as int] * (pow(r, pow(2, i as nat) as nat) % m)) % m,
                m == modulus(),
                0 <= t[i as int] < m,
                i < t.len(),
                a_int == t[i as int] * pow(r, pow(2, i as nat) as nat),
                forall|k: int| 0 <= k < len ==> #[trigger] c@[k].value() == prev[k] % m,
                forall|k: int| 0 <= k < j ==> #[trigger] c@[len + k].value() == (prev[k] * a_int) % m,
            decreases len - j,
        {
            let coeff = fr_mul(&c[j], &a);
            proof {
                lemma_mul_mod_noop(t[i as int], pow(r, pow(2, i as nat) as nat), m);
                lemma_mod_bound(t[i as int], m);
                vstd::arithmetic::div_mod::lemma_mod_twice(t[i as int], m);
                lemma_mul3_mod(prev[j as int], t[i as int], pow(r, pow(2, i as nat) as nat));
                lemma_small_mod(t[i as int] as nat, m as nat);
                assert(prev[j as int] * (t[i as int] * pow(r, pow(2, i as nat) as nat)) == prev[j as int] * a_int);
            }
            c.push(coeff);
            j = j + 1;
        }
        proof {
            lemma_square_step(r, i as nat);
            reveal(pow);
            assert(pow(2, (i + 1) as nat) == 2 * pow(2, i as nat));
            let ts = t.subrange(0, i + 1);
            assert(ts.drop_last() =~= t.subrange(0, i as int));
            assert(coeffs_int(ts, r) == prev + prev.map_values(|x: int| x * a_int));
            let full = prev + prev.map_values(|x: int| x * a_int);
            assert forall|k: int| 0 <= k < c@.len() implies #[trigger] values(c@)[k] == reduce(full)[k] by {
                if k >= len {
                    let kk = k - len;
                    assert(c@[len + kk].value() == (prev[kk] * a_int) % m);
                }
            }
            assert(values(c@) =~= reduce(coeffs_int(ts, r)));
        }
        proof {
            vstd::arithmetic::power::lemma_pow_increases(2, (i + 1) as nat, transcript@.len());
        }
        power_2_r = fr_mul(&power_2_r, &power_2_r);
        len = len * 2;
        i = i + 1;
    }
    proof {
        assert(t.subrange(0, t.len() as int) =~= t);
    }
    c
}


/// `(A % m) * ((1 + (x * (Q % m)) % m) % m) % m == (A * (1 + x * Q)) % m`.
proof fn lemma_factor_step(a: int, x: int, q: int)
    ensures
        (a % modulus()) * ((1 + (x * (q % modulus())) % modulus()) % modulus()) % modulus()
            == (a * (1 + x * q)) % modulus(),
{
    let m = modulus();
    lemma_mul_mod_noop(x, q, m);
    vstd::arithmetic::div_mod::lemma_mod_twice(x, m);
    vstd::arithmetic::div_mod::lemma_mod_mod(x, m, 1);
    lemma_add_mod_noop(1, x * q, m);
    lemma_small_mod(1, m as nat);
    vstd::arithmetic::div_mod::lemma_mod_twice(1 + x * q, m);
    lemma_mul_mod_noop(a, 1 + x * q, m);
    assert((x % m) * (q % m) % m == (x * q) % m);
    vstd::arithmetic::div_mod::lemma_mul_mod_noop_left(x, q % m, m);
    vstd::arithmetic::div_mod::lemma_mul_mod_noop_right(x, q, m);
    lemma_add_mod_noop(1, x * (q % m), m);
    vstd::arithmetic::div_mod::lemma_mod_twice(x * (q % m), m);
}

/// `f(z) = prod_i (1 + t_i (z r)^(2^i))` in `O(l)`, by repeated squaring of `z r`.
pub fn polynomial_evaluation_product_form_from_transcript(transcript: &Vec<Fr>, z: &Fr, r_shift: &Fr) -> (res: Fr)
    requires
        all_wf(transcript@),
        z.wf(),
        r_shift.wf(),
    ensures
        res.wf(),
        res.value() == prod_int(values(transcript@), z.value(), r_shift.value()) % modulus(),
{
    let ghost t = values(transcript@);
    let ghost zr = z.value() * r_shift.value();
    let ghost m = modulus();
    let mut power_zr = fr_mul(z, r_shift);
    let mut res = fr_from_u64(1);
    let one = fr_from_u64(1);
    let mut i: usize = 0;
    proof {
        lemma_modulus_pos();
        reveal(pow);
        lemma_small_mod(1, m as nat);
        assert(pow(2, 0) == 1);
        assert(pow(zr, 1) == zr * pow(zr, 0));
        assert(t.subrange(0, 0) =~= Seq::<int>::empty());
    }
    while i < transcript.len()
        invariant
            i <= transcript@.len(),
            all_wf(transcript@),
            t == values(transcript@),
            t.len() == transcript@.len(),
            zr == z.value() * r_shift.value(),
            m == modulus(),
            one.wf(),
            one.value() == 1,
            power_zr.wf(),
            power_zr.value() == pow(zr, pow(2, i as nat) as nat) % m,
            res.wf(),
            res.value() == prod_int(t.subrange(0, i as int), z.value(), r_shift.value()) % m,
        decreases transcript@.len() - i,
    {
        let term = fr_mul(&transcript[i], &power_zr);
        let factor = fr_add(&one, &term);
        let ghost q = pow(zr, pow(2, i as nat) as nat);
        let ghost prev = prod_int(t.subrange(0, i as int), z.value(), r_shift.value());
        proof {
            assert(t[i as int] == transcript@[i as int].value());
            lemma_factor_step(prev, t[i as int], q);
            let ts = t.subrange(0, i + 1);
            assert(ts.drop_last() =~= t.subrange(0, i as int));
            assert(prod_int(ts, z.value(), r_shift.value()) == prev * (1 + t[i as int] * q));
            lemma_square_step(zr, i as nat);
        }
        res = fr_mul(&res, &factor);
        power_zr = fr_mul(&power_zr, &power_zr);
        i = i + 1;
    }
    proof {
        assert(t.subrange(0, t.len() as int) =~= t);
    }
    res
}

/// `sum_j c_j z^j` in the field, by Horner's rule.
pub fn evaluate(coeffs: &Vec<Fr>, z: &Fr) -> (res: Fr)
    requires
        all_wf(coeffs@),
        z.wf(),
    ensures
        res.wf(),
        res.value() == eval_int(values(coeffs@), z.value()) % modulus(),
{
    let ghost c = values(coeffs@);
    let ghost m = modulus();
    let mut res = fr_from_u64(0);
    let mut j = coeffs.len();
    proof {
        lemma_modulus_pos();
        lemma_small_mod(0, m as nat);
        assert(c.subrange(c.len() as int, c.len() as int) =~= Seq::<int>::empty());
    }
    while j > 0
        invariant
            j <= coeffs@.len(),
            all_wf(coeffs@),
            z.wf(),
            c == values(coeffs@),
            c.len() == coeffs@.len(),
            m == modulus(),
            res.wf(),
            res.value() == eval_int(c.subrange(j as int, c.len() as int), z.value()) % m,
        decreases j,
    {
        j = j - 1;
        let zr = fr_mul(z, &res);
        let ghost tail = eval_int(c.subrange(j + 1, c.len() as int), z.value());
        proof {
            let s = c.subrange(j as int, c.len() as int);
            assert(s.subrange(1, s.len() as int) =~= c.subrange(j + 1, c.len() as int));
            assert(s[0] == coeffs@[j as int].value());
            crate::field::lemma_le_value_bound(coeffs@[j as int].bytes@);
            crate::field::lemma_le_value_bound(z.bytes@);
            lemma_small_mod(z.value() as nat, m as nat);
            assert(coeffs@[j as int].wf());
            lemma_small_mod(s[0] as nat, m as nat);
            lemma_mul_mod_noop(z.value(), tail, m);
            lemma_add_mod_noop(s[0], z.value() * tail, m);
            vstd::arithmetic::div_mod::lemma_mod_twice(z.value() * tail, m);
        }
        res = fr_add(&coeffs[j], &zr);
    }
    proof {
        assert(c.subrange(0, c.len() as int) =~= c);
    }
    res
}

/// The quotient of `f(X) - f(z)` by `X - z`, by synthetic division: the
/// coefficient of `X^k` is `f_(k+1) + z q_(k+1)`, with `q` ending in `f`'s
/// leading coefficient.
pub fn divide_by_linear(f: &Vec<Fr>, z: &Fr) -> (q: Vec<Fr>)
    requires
        all_wf(f@),
        f@.len() >= 1,
        z.wf(),
    ensures
        q@.len() == f@.len() - 1,
        all_wf(q@),
        forall|k: int| 0 <= k < q@.len() - 1 ==> #[trigger] q@[k].value()
            == fadd(f@[k + 1].value(), fmul(z.value(), q@[k + 1].value())),
        q@.len() >= 1 ==> q@[q@.len() - 1] == f@[f@.len() - 1],
{
    let n = f.len() - 1;
    let mut rev: Vec<Fr> = Vec::new();
    if n == 0 {
        return rev;
    }
    // rev holds q in reverse: rev[i] = q[n - 1 - i]
    rev.push(f[n]);
    let mut i: usize = 1;
    while i < n
        invariant
            1 <= i <= n,
            n == f@.len() - 1,
            all_wf(f@),
            z.wf(),
            rev@.len() == i,
            all_wf(rev@),
            rev@[0] == f@[n as int],
            forall|a: int| 1 <= a < i ==> #[trigger] rev@[a].value()
                == fadd(f@[n - a].value(), fmul(z.value(), rev@[a - 1].value())),
        decreases n - i,
    {
        let t = fr_mul(z, &rev[i - 1]);
        let v = fr_add(&f[n - i], &t);
        rev.push(v);
        i = i + 1;
    }
    let mut q: Vec<Fr> = Vec::new();
    let mut k: usize = 0;
    while k < n
        invariant
            k <= n,
            rev@.len() == n,
            q@.len() == k,
            forall|a: int| 0 <= a < k ==> #[trigger] q@[a] == rev@[n - 1 - a],
        decreases n - k,
    {
        q.push(rev[n - 1 - k]);
        k = k + 1;
    }
    proof {
        assert forall|k: int| 0 <= k < q@.len() - 1 implies #[trigger] q@[k].value()
            == fadd(f@[k + 1].value(), fmul(z.value(), q@[k + 1].value())) by {
            assert(q@[k] == rev@[n - 1 - k]);
            assert(q@[k + 1] == rev@[n - 1 - k - 1]);
        }
        assert forall|a: int| 0 <= a < q@.len() implies #[trigger] q@[a].wf() by {
            assert(q@[a] == rev@[n - 1 - a]);
        }
    }
    q
}

} // verus!
