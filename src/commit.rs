//! Commitment keys and the commitments over vectors of group elements.

use vstd::prelude::*;
use crate::field::Fr;
use crate::group::{G1, G2, Gt, g1_add, g1_add_of, g1_mul, g1_mul_of, g2_add, g2_add_of, g2_mul, g2_mul_of, gt_mul, gt_mul_of, pairing, pairing_of};

verus! {

/// `prod_i e(a_i, b_i)`, folded from the left.
pub open spec fn ip_pairing(a: Seq<G1>, b: Seq<G2>) -> Seq<u8>
    decreases a.len(),
{
    if a.len() <= 1 {
        pairing_of(a[0]@, b[0]@)
    } else {
        gt_mul_of(ip_pairing(a.drop_last(), b.drop_last()), pairing_of(a.last()@, b[a.len() - 1]@))
    }
}

/// `prod_i c_i^{s_i}` in `G1`, folded from the left.
pub open spec fn ip_multiexp(c: Seq<G1>, s: Seq<Fr>) -> Seq<u8>
    decreases c.len(),
{
    if c.len() <= 1 {
        g1_mul_of(c[0]@, s[0].value())
    } else {
        g1_add_of(ip_multiexp(c.drop_last(), s.drop_last()), g1_mul_of(c.last()@, s[c.len() - 1].value()))
    }
}

/// `sum_i s_i p_i` in `G2`, folded from the left.
pub open spec fn ip_multiexp_g2(p: Seq<G2>, s: Seq<Fr>) -> Seq<u8>
    decreases p.len(),
{
    if p.len() <= 1 {
        g2_mul_of(p[0]@, s[0].value())
    } else {
        g2_add_of(ip_multiexp_g2(p.drop_last(), s.drop_last()), g2_mul_of(p.last()@, s[p.len() - 1].value()))
    }
}

/// All scalars of a sequence are canonical.
pub open spec fn all_wf(s: Seq<Fr>) -> bool {
    forall|i: int| 0 <= i < s.len() ==> #[trigger] s[i].wf()
}

/// `prod_i e(a_i, b_i)` over two equally long, non-empty vectors.
pub fn inner_product_pairing(a: &[G1], b: &[G2]) -> (r: Gt)
    requires
        a@.len() == b@.len(),
        a@.len() >= 1,
    ensures
        r@ == ip_pairing(a@, b@),
{
    let mut acc = pairing(&a[0], &b[0]);
    let mut i: usize = 1;
    while i < a.len()
        invariant
            1 <= i <= a@.len(),
            a@.len() == b@.len(),
            acc@ == ip_pairing(a@.subrange(0, i as int), b@.subrange(0, i as int)),
        decreases a@.len() - i,
    {
        let p = pairing(&a[i], &b[i]);
        acc = gt_mul(&acc, &p);
        proof {
            let sa = a@.subrange(0, i + 1);
            let sb = b@.subrange(0, i + 1);
            assert(sa.drop_last() =~= a@.subrange(0, i as int));
            assert(sb.drop_last() =~= b@.subrange(0, i as int));
        }
        i = i + 1;
    }
    proof {
        assert(a@.subrange(0, a@.len() as int) =~= a@);
        assert(b@.subrange(0, b@.len() as int) =~= b@);
    }
    acc
}

/// `prod_i c_i^{s_i}` over two equally long, non-empty vectors.
pub fn inner_product_multiexp(c: &[G1], s: &[Fr]) -> (r: G1)
    requires
        c@.len() == s@.len(),
        c@.len() >= 1,
        all_wf(s@),
    ensures
        r@ == ip_multiexp(c@, s@),
{
    let mut acc = g1_mul(&c[0], &s[0]);
    let mut i: usize = 1;
    while i < c.len()
        invariant
            1 <= i <= c@.len(),
            c@.len() == s@.len(),
            all_wf(s@),
            acc@ == ip_multiexp(c@.subrange(0, i as int), s@.subrange(0, i as int)),
        decreases c@.len() - i,
    {
        let p = g1_mul(&c[i], &s[i]);
        acc = g1_add(&acc, &p);
        proof {
            let sc = c@.subrange(0, i + 1);
            let ss = s@.subrange(0, i + 1);
            assert(sc.drop_last() =~= c@.subrange(0, i as int));
            assert(ss.drop_last() =~= s@.subrange(0, i as int));
        }
        i = i + 1;
    }
    proof {
        assert(c@.subrange(0, c@.len() as int) =~= c@);
        assert(s@.subrange(0, s@.len() as int) =~= s@);
    }
    acc
}

/// `sum_i s_i p_i` in `G2` over two equally long, non-empty vectors.
pub fn inner_product_multiexp_g2(p: &[G2], s: &[Fr]) -> (r: G2)
    requires
        p@.len() == s@.len(),
        p@.len() >= 1,
        all_wf(s@),
    ensures
        r@ == ip_multiexp_g2(p@, s@),
{
    let mut acc = g2_mul(&p[0], &s[0]);
    let mut i: usize = 1;
    while i < p.len()
        invariant
            1 <= i <= p@.len(),
            p@.len() == s@.len(),
            all_wf(s@),
            acc@ == ip_multiexp_g2(p@.subrange(0, i as int), s@.subrange(0, i as int)),
        decreases p@.len() - i,
    {
        let t = g2_mul(&p[i], &s[i]);
        acc = g2_add(&acc, &t);
        proof {
            let sp = p@.subrange(0, i + 1);
            let ss = s@.subrange(0, i + 1);
            assert(sp.drop_last() =~= p@.subrange(0, i as int));
            assert(ss.drop_last() =~= s@.subrange(0, i as int));
        }
        i = i + 1;
    }
    proof {
        assert(p@.subrange(0, p@.len() as int) =~= p@);
        assert(s@.subrange(0, s@.len() as int) =~= s@);
    }
    acc
}

/// A commitment key in `G2`.
#[derive(Clone, Debug)]
pub struct VKey {
    pub v: Vec<G2>,
}

/// A commitment key in `G1`.
#[derive(Clone, Debug)]
pub struct WKey {
    pub w: Vec<G1>,
}

/// `left_i + x * right_i` in `G2`.
pub open spec fn g2_fold(left: G2, right: G2, x: int) -> Seq<u8> {
    g2_add_of(left@, g2_mul_of(right@, x))
}

/// `left_i + x * right_i` in `G1`.
pub open spec fn g1_fold(left: G1, right: G1, x: int) -> Seq<u8> {
    g1_add_of(left@, g1_mul_of(right@, x))
}

fn copy_range<T: Copy>(v: &[T], lo: usize, hi: usize) -> (r: Vec<T>)
    requires
        lo <= hi <= v@.len(),
    ensures
        r@ == v@.subrange(lo as int, hi as int),
{
    let mut r: Vec<T> = Vec::new();
    let mut i = lo;
    while i < hi
        invariant
            lo <= i <= hi <= v@.len(),
            r@ == v@.subrange(lo as int, i as int),
        decreases hi - i,
    {
        r.push(v[i]);
        proof {
            assert(r@ =~= v@.subrange(lo as int, i + 1));
        }
        i = i + 1;
    }
    r
}

impl VKey {
    /// The key has length `n`.
    pub fn correct_len(&self, n: usize) -> (r: bool)
        ensures
            r == (self.v@.len() == n),
    {
        self.v.len() == n
    }

    /// The first `k` elements and the rest.
    pub fn split(&self, k: usize) -> (r: (VKey, VKey))
        requires
            k <= self.v@.len(),
        ensures
            r.0.v@ == self.v@.subrange(0, k as int),
            r.1.v@ == self.v@.subrange(k as int, self.v@.len() as int),
    {
        let n = self.v.len();
        (VKey { v: copy_range(self.v.as_slice(), 0, k) }, VKey { v: copy_range(self.v.as_slice(), k, n) })
    }

    /// `(left_i + x * right_i)_i`.
    pub fn compress(left: &VKey, right: &VKey, x: &Fr) -> (r: VKey)
        requires
            left.v@.len() == right.v@.len(),
            x.wf(),
        ensures
            r.v@.len() == left.v@.len(),
            forall|i: int| 0 <= i < left.v@.len() ==>
                #[trigger] r.v@[i]@ == g2_fold(left.v@[i], right.v@[i], x.value()),
    {
        let out = fold_g2(left.v.as_slice(), right.v.as_slice(), x);
        VKey { v: out }
    }

    /// `(v_i * s_i)_i`.
    pub fn scale(&self, s: &Vec<Fr>) -> (r: VKey)
        requires
            s@.len() == self.v@.len(),
            all_wf(s@),
        ensures
            r.v@.len() == self.v@.len(),
            forall|i: int| 0 <= i < self.v@.len() ==>
                #[trigger] r.v@[i]@ == g2_mul_of(self.v@[i]@, s@[i].value()),
    {
        let mut out: Vec<G2> = Vec::new();
        let mut i: usize = 0;
        while i < self.v.len()
            invariant
                s@.len() == self.v@.len(),
                all_wf(s@),
                out@.len() == i,
                i <= self.v@.len(),
                forall|j: int| 0 <= j < i ==>
                    #[trigger] out@[j]@ == g2_mul_of(self.v@[j]@, s@[j].value()),
            decreases self.v@.len() - i,
        {
            out.push(g2_mul(&self.v[i], &s[i]));
            i = i + 1;
        }
        VKey { v: out }
    }

    /// The sole element left after full compression.
    pub fn first(&self) -> (r: G2)
        requires
            self.v@.len() >= 1,
        ensures
            r == self.v@[0],
    {
        self.v[0]
    }
}

impl WKey {
    /// The key has length `n`.
    pub fn correct_len(&self, n: usize) -> (r: bool)
        ensures
            r == (self.w@.len() == n),
    {
        self.w.len() == n
    }

    /// The first `k` elements and the rest.
    pub fn split(&self, k: usize) -> (r: (WKey, WKey))
        requires
            k <= self.w@.len(),
        ensures
            r.0.w@ == self.w@.subrange(0, k as int),
            r.1.w@ == self.w@.subrange(k as int, self.w@.len() as int),
    {
        let n = self.w.len();
        (WKey { w: copy_range(self.w.as_slice(), 0, k) }, WKey { w: copy_range(self.w.as_slice(), k, n) })
    }

    /// `(left_i + x * right_i)_i`.
    pub fn compress(left: &WKey, right: &WKey, x: &Fr) -> (r: WKey)
        requires
            left.w@.len() == right.w@.len(),
            x.wf(),
        ensures
            r.w@.len() == left.w@.len(),
            forall|i: int| 0 <= i < left.w@.len() ==>
                #[trigger] r.w@[i]@ == g1_fold(left.w@[i], right.w@[i], x.value()),
    {
        let out = fold_g1(left.w.as_slice(), right.w.as_slice(), x);
        WKey { w: out }
    }

    /// The sole element left after full compression.
    pub fn first(&self) -> (r: G1)
        requires
            self.w@.len() >= 1,
        ensures
            r == self.w@[0],
    {
        self.w[0]
    }
}

/// `(left_i + x * right_i)_i` in `G1`.
pub fn fold_g1(left: &[G1], right: &[G1], x: &Fr) -> (out: Vec<G1>)
    requires
        left@.len() == right@.len(),
        x.wf(),
    ensures
        out@.len() == left@.len(),
        forall|i: int| 0 <= i < left@.len() ==>
            #[trigger] out@[i]@ == g1_fold(left@[i], right@[i], x.value()),
{
    let mut out: Vec<G1> = Vec::new();
    let mut i: usize = 0;
    while i < left.len()
        invariant
            left@.len() == right@.len(),
            x.wf(),
            out@.len() == i,
            i <= left@.len(),
            forall|j: int| 0 <= j < i ==>
                #[trigger] out@[j]@ == g1_fold(left@[j], right@[j], x.value()),
        decreases left@.len() - i,
    {
        let m = g1_mul(&right[i], x);
        out.push(g1_add(&left[i], &m));
        i = i + 1;
    }
    out
}

/// `(left_i + x * right_i)_i` in `G2`.
pub fn fold_g2(left: &[G2], right: &[G2], x: &Fr) -> (out: Vec<G2>)
    requires
        left@.len() == right@.len(),
        x.wf(),
    ensures
        out@.len() == left@.len(),
        forall|i: int| 0 <= i < left@.len() ==>
            #[trigger] out@[i]@ == g2_fold(left@[i], right@[i], x.value()),
{
    let mut out: Vec<G2> = Vec::new();
    let mut i: usize = 0;
    while i < left.len()
        invariant
            left@.len() == right@.len(),
            x.wf(),
            out@.len() == i,
            i <= left@.len(),
            forall|j: int| 0 <= j < i ==>
                #[trigger] out@[j]@ == g2_fold(left@[j], right@[j], x.value()),
        decreases left@.len() - i,
    {
        let m = g2_mul(&right[i], x);
        out.push(g2_add(&left[i], &m));
        i = i + 1;
    }
    out
}

/// Relies on rayon::join: it runs both closures, possibly in parallel, and
/// returns their results in order.
#[verifier::external_body]
pub(crate) fn join<A, B, RA, RB>(oper_a: A, oper_b: B) -> (r: (RA, RB))
    where
        A: FnOnce() -> RA + Send,
        B: FnOnce() -> RB + Send,
        RA: Send,
        RB: Send,
    requires
        oper_a.requires(()),
        oper_b.requires(()),
    ensures
        oper_a.ensures((), r.0),
        oper_b.ensures((), r.1),
{
    rayon::join(oper_a, oper_b)
}

/// The pair commitment `(prod_i e(a_i, v_i), prod_i e(w_i, b_i))` over slices,
/// its two halves computed in parallel.
pub fn pair_slices(v: &[G2], w: &[G1], a: &[G1], b: &[G2]) -> (r: (Gt, Gt))
    requires
        a@.len() >= 1,
        v@.len() == a@.len(),
        w@.len() == a@.len(),
        b@.len() == a@.len(),
    ensures
        r.0@ == ip_pairing(a@, v@),
        r.1@ == ip_pairing(w@, b@),
{
    join(
        || -> (t: Gt)
            requires
                a@.len() >= 1,
                v@.len() == a@.len(),
            ensures
                t@ == ip_pairing(a@, v@)
        {
            inner_product_pairing(a, v)
        },
        || -> (u: Gt)
            requires
                w@.len() >= 1,
                b@.len() == w@.len(),
            ensures
                u@ == ip_pairing(w@, b@)
        {
            inner_product_pairing(w, b)
        },
    )
}

/// The pair commitment `(prod_i e(a_i, v_i), prod_i e(w_i, b_i))`.
pub fn pair(vkey: &VKey, wkey: &WKey, a: &[G1], b: &[G2]) -> (r: (Gt, Gt))
    requires
        a@.len() >= 1,
        vkey.v@.len() == a@.len(),
        wkey.w@.len() == a@.len(),
        b@.len() == a@.len(),
    ensures
        r.0@ == ip_pairing(a@, vkey.v@),
        r.1@ == ip_pairing(wkey.w@, b@),
{
    pair_slices(vkey.v.as_slice(), wkey.w.as_slice(), a, b)
}

/// The single commitment `prod_i e(c_i, v_i)`.
pub fn single_g1(vkey: &VKey, c: &[G1]) -> (r: Gt)
    requires
        c@.len() >= 1,
        vkey.v@.len() == c@.len(),
    ensures
        r@ == ip_pairing(c@, vkey.v@),
{
    inner_product_pairing(c, vkey.v.as_slice())
}

} // verus!
