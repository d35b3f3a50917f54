//! The GIPA recursion: halve the vectors round by round, committing to the
//! cross terms and folding with a Fiat-Shamir challenge, until one element is left.

use vstd::prelude::*;
use crate::field::{Fr, fadd, fmul, fr_add, fr_mul};
use crate::group::{G1, G2, Gt};
use crate::commit::{VKey, WKey, join, pair_slices};
use crate::commit::{ip_pairing, ip_multiexp, g1_fold, g2_fold, fold_g1, fold_g2, all_wf,
    inner_product_pairing, inner_product_multiexp};
use crate::transcript::{challenge_exhausted, round_challenge, derive_round_challenge, append_bytes};
use crate::pow2::{is_pow2, log2};
use crate::error::SynthesisError;

verus! {

/// The vectors a TIPP round starts from: `(A, B, vkey, wkey)`.
pub type TippState = (Seq<G1>, Seq<G2>, Seq<G2>, Seq<G1>);

/// The vectors a MIPP round starts from: `(C, r, vkey)`.
pub type MippState = (Seq<G1>, Seq<Fr>, Seq<G2>);

/// The record of a TIPP recursion.
#[derive(Clone, Debug)]
pub struct GipaTipp {
    /// Per round, the cross commitments `(C_L, C_R)`, each a pair of target elements.
    pub comms: Vec<((Gt, Gt), (Gt, Gt))>,
    /// Per round, the cross products `(Z_L, Z_R)`.
    pub z_vec: Vec<(Gt, Gt)>,
    pub final_a: G1,
    pub final_b: G2,
    pub final_vkey: G2,
    pub final_wkey: G1,
}

/// The record of a MIPP recursion.
#[derive(Clone, Debug)]
pub struct GipaMipp {
    /// Per round, the cross commitments `(T_L, T_R)`.
    pub comms: Vec<(Gt, Gt)>,
    /// Per round, the cross multi-exponentiations `(Z_L, Z_R)`.
    pub z_vec: Vec<(G1, G1)>,
    pub final_c: G1,
    pub final_r: Fr,
    pub final_vkey: G2,
}

/// The challenge that round `k` chains from: the field zero in the first round,
/// the previous round's challenge after that.
pub open spec fn prev_challenge(chals: Seq<Fr>, k: int) -> Seq<u8> {
    if k == 0 {
        Seq::new(32, |i: int| 0u8)
    } else {
        chals[k - 1].bytes@
    }
}

/// What a TIPP round hashes after the retry counter.
pub open spec fn tipp_body(prev: Seq<u8>, comm: ((Gt, Gt), (Gt, Gt)), z: (Gt, Gt)) -> Seq<u8> {
    prev + comm.1.0@ + comm.1.1@ + z.1@ + comm.0.0@ + comm.0.1@ + z.0@
}

/// What a MIPP round hashes after the retry counter.
pub open spec fn mipp_body(prev: Seq<u8>, comm: (Gt, Gt), z: (G1, G1)) -> Seq<u8> {
    prev + comm.0@ + comm.1@ + z.1@ + z.0@
}

/// One TIPP round from `s` to `next`, given the challenge it chains from.
pub open spec fn tipp_round(s: TippState, prev: Seq<u8>, comm: ((Gt, Gt), (Gt, Gt)), z: (Gt, Gt), c: Fr, next: TippState) -> bool {
    let m = s.0.len();
    let h = m / 2;
    let (a, b, v, w) = s;
    let (a_l, a_r) = (a.subrange(0, h as int), a.subrange(h as int, m as int));
    let (b_l, b_r) = (b.subrange(0, h as int), b.subrange(h as int, m as int));
    let (v_l, v_r) = (v.subrange(0, h as int), v.subrange(h as int, m as int));
    let (w_l, w_r) = (w.subrange(0, h as int), w.subrange(h as int, m as int));
    let ch = round_challenge(tipp_body(prev, comm, z));
    &&& m >= 2 && m % 2 == 0
    &&& b.len() == m && v.len() == m && w.len() == m
    &&& comm.0.0@ == ip_pairing(a_r, v_l) && comm.0.1@ == ip_pairing(w_r, b_l)
    &&& comm.1.0@ == ip_pairing(a_l, v_r) && comm.1.1@ == ip_pairing(w_l, b_r)
    &&& z.0@ == ip_pairing(a_r, b_l) && z.1@ == ip_pairing(a_l, b_r)
    &&& c.wf() && c.value() == ch.0 && fmul(ch.0, ch.1) == 1
    &&& next.0.len() == h && next.1.len() == h && next.2.len() == h && next.3.len() == h
    &&& forall|i: int| 0 <= i < h ==> {
        &&& (#[trigger] next.0[i])@ == g1_fold(a[i], a[h + i], ch.0)
        &&& next.1[i]@ == g2_fold(b[i], b[h + i], ch.1)
        &&& next.2[i]@ == g2_fold(v[i], v[h + i], ch.1)
        &&& next.3[i]@ == g1_fold(w[i], w[h + i], ch.0)
    }
}

/// One MIPP round from `s` to `next`, given the challenge it chains from.
pub open spec fn mipp_round(s: MippState, prev: Seq<u8>, comm: (Gt, Gt), z: (G1, G1), c: Fr, next: MippState) -> bool {
    let m = s.0.len();
    let h = m / 2;
    let (cs, r, v) = s;
    let (c_l, c_r) = (cs.subrange(0, h as int), cs.subrange(h as int, m as int));
    let (r_l, r_r) = (r.subrange(0, h as int), r.subrange(h as int, m as int));
    let (v_l, v_r) = (v.subrange(0, h as int), v.subrange(h as int, m as int));
    let ch = round_challenge(mipp_body(prev, comm, z));
    &&& m >= 2 && m % 2 == 0
    &&& r.len() == m && v.len() == m
    &&& comm.0@ == ip_pairing(c_r, v_l) && comm.1@ == ip_pairing(c_l, v_r)
    &&& z.0@ == ip_multiexp(c_r, r_l) && z.1@ == ip_multiexp(c_l, r_r)
    &&& c.wf() && c.value() == ch.0 && fmul(ch.0, ch.1) == 1
    &&& next.0.len() == h && next.1.len() == h && next.2.len() == h
    &&& forall|i: int| 0 <= i < h ==> {
        &&& (#[trigger] next.0[i])@ == g1_fold(cs[i], cs[h + i], ch.0)
        &&& next.1[i].wf() && next.1[i].value() == fadd(r[i].value(), fmul(ch.1, r[h + i].value()))
        &&& next.2[i]@ == g2_fold(v[i], v[h + i], ch.1)
    }
}

/// `tr` is the sequence of states that a TIPP recursion from `tr[0]` went
/// through, with challenges `chals`, recorded in `p`.
pub open spec fn tipp_trace(tr: Seq<TippState>, p: GipaTipp, chals: Seq<Fr>) -> bool {
    let l = chals.len();
    &&& tr.len() == l + 1
    &&& p.comms@.len() == l && p.z_vec@.len() == l
    &&& forall|k: int| 0 <= k < l ==>
        tipp_round(#[trigger] tr[k], prev_challenge(chals, k), p.comms@[k], p.z_vec@[k], chals[k], tr[k + 1])
    &&& tr[l as int].0.len() == 1
    &&& p.final_a == tr[l as int].0[0] && p.final_b == tr[l as int].1[0]
    &&& p.final_vkey == tr[l as int].2[0] && p.final_wkey == tr[l as int].3[0]
}

/// `tr` is the sequence of states that a MIPP recursion from `tr[0]` went
/// through, with challenges `chals`, recorded in `p`.
pub open spec fn mipp_trace(tr: Seq<MippState>, p: GipaMipp, chals: Seq<Fr>) -> bool {
    let l = chals.len();
    &&& tr.len() == l + 1
    &&& p.comms@.len() == l && p.z_vec@.len() == l
    &&& forall|k: int| 0 <= k < l ==>
        mipp_round(#[trigger] tr[k], prev_challenge(chals, k), p.comms@[k], p.z_vec@[k], chals[k], tr[k + 1])
    &&& tr[l as int].0.len() == 1
    &&& p.final_c == tr[l as int].0[0] && p.final_r == tr[l as int].1[0]
    &&& p.final_vkey == tr[l as int].2[0]
}

/// `(left_i + x * right_i)_i` in the field.
pub fn fold_fr(left: &[Fr], right: &[Fr], x: &Fr) -> (out: Vec<Fr>)
    requires
        left@.len() == right@.len(),
        all_wf(left@),
        all_wf(right@),
        x.wf(),
    ensures
        out@.len() == left@.len(),
        forall|i: int| 0 <= i < left@.len() ==> (#[trigger] out@[i]).wf()
            && out@[i].value() == fadd(left@[i].value(), fmul(x.value(), right@[i].value())),
{
    let mut out: Vec<Fr> = Vec::new();
    let mut i: usize = 0;
    while i < left.len()
        invariant
            left@.len() == right@.len(),
            all_wf(left@),
            all_wf(right@),
            x.wf(),
            out@.len() == i,
            i <= left@.len(),
            forall|j: int| 0 <= j < i ==> (#[trigger] out@[j]).wf()
                && out@[j].value() == fadd(left@[j].value(), fmul(x.value(), right@[j].value())),
        decreases left@.len() - i,
    {
        let m = fr_mul(x, &right[i]);
        out.push(fr_add(&left[i], &m));
        i = i + 1;
    }
    out
}

fn tipp_round_body(prev: &Fr, cl: &(Gt, Gt), cr: &(Gt, Gt), zl: &Gt, zr: &Gt) -> (r: Vec<u8>)
    ensures
        r@ == tipp_body(prev.bytes@, (*cl, *cr), (*zl, *zr)),
{
    let mut body: Vec<u8> = Vec::new();
    append_bytes(&mut body, prev.bytes.as_slice());
    append_bytes(&mut body, cr.0.bytes.as_slice());
    append_bytes(&mut body, cr.1.bytes.as_slice());
    append_bytes(&mut body, zr.bytes.as_slice());
    append_bytes(&mut body, cl.0.bytes.as_slice());
    append_bytes(&mut body, cl.1.bytes.as_slice());
    append_bytes(&mut body, zl.bytes.as_slice());
    proof {
        assert(body@ =~= tipp_body(prev.bytes@, (*cl, *cr), (*zl, *zr)));
    }
    body
}

fn mipp_round_body(prev: &Fr, comm: &(Gt, Gt), zl: &G1, zr: &G1) -> (r: Vec<u8>)
    ensures
        r@ == mipp_body(prev.bytes@, *comm, (*zl, *zr)),
{
    let mut body: Vec<u8> = Vec::new();
    append_bytes(&mut body, prev.bytes.as_slice());
    append_bytes(&mut body, comm.0.bytes.as_slice());
    append_bytes(&mut body, comm.1.bytes.as_slice());
    append_bytes(&mut body, zr.bytes.as_slice());
    append_bytes(&mut body, zl.bytes.as_slice());
    proof {
        assert(body@ =~= mipp_body(prev.bytes@, *comm, (*zl, *zr)));
    }
    body
}


fn copy_vec<T: Copy>(v: &Vec<T>) -> (r: Vec<T>)
    ensures
        r@ == v@,
{
    let mut r: Vec<T> = Vec::new();
    let mut i: usize = 0;
    while i < v.len()
        invariant
            i <= v@.len(),
            r@ == v@.subrange(0, i as int),
        decreases v@.len() - i,
    {
        r.push(v[i]);
        proof {
            assert(r@ =~= v@.subrange(0, i + 1));
        }
        i = i + 1;
    }
    proof {
        assert(v@.subrange(0, v@.len() as int) =~= v@);
    }
    r
}

/// One TIPP round on vectors of even length at least two.
fn tipp_step(m_a: &Vec<G1>, m_b: &Vec<G2>, m_v: &Vec<G2>, m_w: &Vec<G1>, prev: &Fr) -> (res: Option<(((Gt, Gt), (Gt, Gt)), (Gt, Gt), Fr, Vec<G1>, Vec<G2>, Vec<G2>, Vec<G1>)>)
    requires
        m_a@.len() >= 2,
        m_a@.len() % 2 == 0,
        m_b@.len() == m_a@.len() && m_v@.len() == m_a@.len() && m_w@.len() == m_a@.len(),
    ensures
        res is None ==> challenge_exhausted(),
        res is Some ==> {
            let (comm, z, c, n_a, n_b, n_v, n_w) = res.unwrap();
            &&& tipp_round((m_a@, m_b@, m_v@, m_w@), prev.bytes@, comm, z, c, (n_a@, n_b@, n_v@, n_w@))
            &&& c.value() != 0
        },
{
    let h = m_a.len() / 2;
    let (a_l, a_r) = m_a.as_slice().split_at(h);
    let (b_l, b_r) = m_b.as_slice().split_at(h);
    let (v_l, v_r) = m_v.as_slice().split_at(h);
    let (w_l, w_r) = m_w.as_slice().split_at(h);
    let (cl, cr) = join(
        || -> (r: (Gt, Gt))
            requires
                a_r@.len() >= 1,
                v_l@.len() == a_r@.len() && w_r@.len() == a_r@.len() && b_l@.len() == a_r@.len(),
            ensures
                r.0@ == ip_pairing(a_r@, v_l@) && r.1@ == ip_pairing(w_r@, b_l@)
        {
            pair_slices(v_l, w_r, a_r, b_l)
        },
        || -> (r: (Gt, Gt))
            requires
                a_l@.len() >= 1,
                v_r@.len() == a_l@.len() && w_l@.len() == a_l@.len() && b_r@.len() == a_l@.len(),
            ensures
                r.0@ == ip_pairing(a_l@, v_r@) && r.1@ == ip_pairing(w_l@, b_r@)
        {
            pair_slices(v_r, w_l, a_l, b_r)
        },
    );
    let (zl, zr) = join(
        || -> (r: Gt)
            requires
                a_r@.len() >= 1 && b_l@.len() == a_r@.len(),
            ensures
                r@ == ip_pairing(a_r@, b_l@)
        {
            inner_product_pairing(a_r, b_l)
        },
        || -> (r: Gt)
            requires
                a_l@.len() >= 1 && b_r@.len() == a_l@.len(),
            ensures
                r@ == ip_pairing(a_l@, b_r@)
        {
            inner_product_pairing(a_l, b_r)
        },
    );
    let body = tipp_round_body(prev, &cl, &cr, &zl, &zr);
    let (c, c_inv) = match derive_round_challenge(&body) {
        Some(pair) => pair,
        None => { return None; },
    };
    proof {
        assert(c.value() != 0) by {
            if c.value() == 0 {
                assert(c.value() * c_inv.value() == 0);
                vstd::arithmetic::div_mod::lemma_small_mod(0, crate::field::modulus() as nat);
            }
        }
    }
    let n_a = fold_g1(a_l, a_r, &c);
    let n_b = fold_g2(b_l, b_r, &c_inv);
    let n_v = fold_g2(v_l, v_r, &c_inv);
    let n_w = fold_g1(w_l, w_r, &c);
    Some(((cl, cr), (zl, zr), c, n_a, n_b, n_v, n_w))
}

/// One MIPP round on vectors of even length at least two.
fn mipp_step(m_c: &Vec<G1>, m_r: &Vec<Fr>, m_v: &Vec<G2>, prev: &Fr) -> (res: Option<((Gt, Gt), (G1, G1), Fr, Vec<G1>, Vec<Fr>, Vec<G2>)>)
    requires
        m_c@.len() >= 2,
        m_c@.len() % 2 == 0,
        m_r@.len() == m_c@.len() && m_v@.len() == m_c@.len(),
        all_wf(m_r@),
    ensures
        res is None ==> challenge_exhausted(),
        res is Some ==> {
            let (comm, z, c, n_c, n_r, n_v) = res.unwrap();
            &&& mipp_round((m_c@, m_r@, m_v@), prev.bytes@, comm, z, c, (n_c@, n_r@, n_v@))
            &&& all_wf(n_r@)
            &&& c.value() != 0
        },
{
    let h = m_c.len() / 2;
    let (c_l, c_r) = m_c.as_slice().split_at(h);
    let (r_l, r_r) = m_r.as_slice().split_at(h);
    let (v_l, v_r) = m_v.as_slice().split_at(h);
    proof {
        assert forall|i: int| 0 <= i < r_l@.len() implies #[trigger] r_l@[i].wf() by {
            assert(r_l@[i] == m_r@[i]);
        }
        assert forall|i: int| 0 <= i < r_r@.len() implies #[trigger] r_r@[i].wf() by {
            assert(r_r@[i] == m_r@[h + i]);
        }
    }
    let comm = join(
        || -> (t: Gt)
            requires
                c_r@.len() >= 1 && v_l@.len() == c_r@.len(),
            ensures
                t@ == ip_pairing(c_r@, v_l@)
        {
            inner_product_pairing(c_r, v_l)
        },
        || -> (t: Gt)
            requires
                c_l@.len() >= 1 && v_r@.len() == c_l@.len(),
            ensures
                t@ == ip_pairing(c_l@, v_r@)
        {
            inner_product_pairing(c_l, v_r)
        },
    );
    let (zl, zr) = join(
        || -> (z: G1)
            requires
                c_r@.len() >= 1 && r_l@.len() == c_r@.len() && all_wf(r_l@),
            ensures
                z@ == ip_multiexp(c_r@, r_l@)
        {
            inner_product_multiexp(c_r, r_l)
        },
        || -> (z: G1)
            requires
                c_l@.len() >= 1 && r_r@.len() == c_l@.len() && all_wf(r_r@),
            ensures
                z@ == ip_multiexp(c_l@, r_r@)
        {
            inner_product_multiexp(c_l, r_r)
        },
    );
    let body = mipp_round_body(prev, &comm, &zl, &zr);
    let (ch, ch_inv) = match derive_round_challenge(&body) {
        Some(pair) => pair,
        None => { return None; },
    };
    proof {
        assert(ch.value() != 0) by {
            if ch.value() == 0 {
                assert(ch.value() * ch_inv.value() == 0);
                vstd::arithmetic::div_mod::lemma_small_mod(0, crate::field::modulus() as nat);
            }
        }
    }
    let n_c = fold_g1(c_l, c_r, &ch);
    let n_r = fold_fr(r_l, r_r, &ch_inv);
    let n_v = fold_g2(v_l, v_r, &ch_inv);
    Some((comm, (zl, zr), ch, n_c, n_r, n_v))
}

/// The GIPA recursion for TIPP over `(A, B)` under `(vkey, wkey)`: one round
/// per halving, `log2 n` in all, each recorded with its challenge; the finals
/// are the single elements left.
pub fn gipa_tipp(a: &Vec<G1>, b: &Vec<G2>, vkey: &VKey, wkey: &WKey) -> (res: Result<(GipaTipp, Vec<Fr>), SynthesisError>)
    requires
        is_pow2(a@.len() as nat),
        b@.len() == a@.len(),
        vkey.v@.len() == a@.len(),
        wkey.w@.len() == a@.len(),
    ensures
        res is Err ==> res == Err::<(GipaTipp, Vec<Fr>), SynthesisError>(SynthesisError::NoChallenge) && challenge_exhausted(),
        res is Ok ==> res.unwrap().1@.len() == log2(a@.len() as nat),
        res is Ok ==> forall|k: int| 0 <= k < res.unwrap().1@.len() ==>
            (#[trigger] res.unwrap().1@[k]).wf() && res.unwrap().1@[k].value() != 0,
        res is Ok ==> exists|tr: Seq<TippState>|
            tr[0] == (a@, b@, vkey.v@, wkey.w@) && #[trigger] tipp_trace(tr, res.unwrap().0, res.unwrap().1@),
{
    let ghost n = a@.len() as nat;
    let mut m_a = copy_vec(a);
    let mut m_b = copy_vec(b);
    let mut m_v = copy_vec(&vkey.v);
    let mut m_w = copy_vec(&wkey.w);
    let mut comms: Vec<((Gt, Gt), (Gt, Gt))> = Vec::new();
    let mut z_vec: Vec<(Gt, Gt)> = Vec::new();
    let mut chals: Vec<Fr> = Vec::new();
    let mut prev = Fr { bytes: [0u8; 32] };
    let ghost mut tr: Seq<TippState> = seq![(a@, b@, vkey.v@, wkey.w@)];
    proof {
        assert(prev.bytes@ =~= prev_challenge(chals@, 0));
    }
    while m_a.len() > 1
        invariant
            is_pow2(m_a@.len() as nat),
            m_b@.len() == m_a@.len() && m_v@.len() == m_a@.len() && m_w@.len() == m_a@.len(),
            tr.len() == chals@.len() + 1,
            tr[0] == (a@, b@, vkey.v@, wkey.w@),
            tr[chals@.len() as int] == (m_a@, m_b@, m_v@, m_w@),
            comms@.len() == chals@.len() && z_vec@.len() == chals@.len(),
            forall|k: int| 0 <= k < chals@.len() ==>
                tipp_round(#[trigger] tr[k], prev_challenge(chals@, k), comms@[k], z_vec@[k], chals@[k], tr[k + 1]),
            prev.bytes@ == prev_challenge(chals@, chals@.len() as int),
            forall|k: int| 0 <= k < chals@.len() ==> (#[trigger] chals@[k]).wf() && chals@[k].value() != 0,
            chals@.len() + log2(m_a@.len() as nat) == log2(n),
            n == a@.len(),
            is_pow2(n),
        decreases m_a@.len(),
    {
        let (comm, z, c, n_a, n_b, n_v, n_w) = match tipp_step(&m_a, &m_b, &m_v, &m_w, &prev) {
            Some(step) => step,
            None => { return Err(SynthesisError::NoChallenge); },
        };
        let ghost k = chals@.len() as int;
        let ghost old_chals = chals@;
        let ghost old_comms = comms@;
        let ghost old_z = z_vec@;
        comms.push(comm);
        z_vec.push(z);
        chals.push(c);
        proof {
            tr = tr.push((n_a@, n_b@, n_v@, n_w@));
            assert(tipp_round(tr[k], prev_challenge(chals@, k), comms@[k], z_vec@[k], chals@[k], tr[k + 1]));
            assert forall|j: int| 0 <= j < chals@.len() implies
                tipp_round(#[trigger] tr[j], prev_challenge(chals@, j), comms@[j], z_vec@[j], chals@[j], tr[j + 1]) by {
                if j < k {
                    assert(prev_challenge(chals@, j) == prev_challenge(old_chals, j));
                    assert(comms@[j] == old_comms[j]);
                    assert(z_vec@[j] == old_z[j]);
                }
            }
        }
        prev = c;
        m_a = n_a;
        m_b = n_b;
        m_v = n_v;
        m_w = n_w;
    }
    proof {
        assert(!is_pow2(0));
        assert(m_a@.len() == 1);
        assert(log2(1) == 0);
    }
    let p = GipaTipp {
        comms,
        z_vec,
        final_a: m_a[0],
        final_b: m_b[0],
        final_vkey: m_v[0],
        final_wkey: m_w[0],
    };
    proof {
        assert(tipp_trace(tr, p, chals@));
        assert(chals@.len() == log2(a@.len() as nat));
        assert(tr[0] == (a@, b@, vkey.v@, wkey.w@));
    }
    let res = Ok((p, chals));
    proof {
        assert(tipp_trace(tr, res.unwrap().0, res.unwrap().1@));
    }
    res
}

/// The GIPA recursion for MIPP over `(C, r)` under `vkey`: one round per
/// halving, `log2 n` in all, each recorded with its challenge; the finals are
/// the single elements left.
pub fn gipa_mipp(c: &Vec<G1>, r: &Vec<Fr>, vkey: &VKey) -> (res: Result<(GipaMipp, Vec<Fr>), SynthesisError>)
    requires
        is_pow2(c@.len() as nat),
        r@.len() == c@.len(),
        all_wf(r@),
        vkey.v@.len() == c@.len(),
    ensures
        res is Err ==> res == Err::<(GipaMipp, Vec<Fr>), SynthesisError>(SynthesisError::NoChallenge) && challenge_exhausted(),
        res is Ok ==> res.unwrap().1@.len() == log2(c@.len() as nat),
        res is Ok ==> forall|k: int| 0 <= k < res.unwrap().1@.len() ==>
            (#[trigger] res.unwrap().1@[k]).wf() && res.unwrap().1@[k].value() != 0,
        res is Ok ==> exists|tr: Seq<MippState>|
            tr[0] == (c@, r@, vkey.v@) && #[trigger] mipp_trace(tr, res.unwrap().0, res.unwrap().1@),
{
    let ghost n = c@.len() as nat;
    let mut m_c = copy_vec(c);
    let mut m_r = copy_vec(r);
    let mut m_v = copy_vec(&vkey.v);
    let mut comms: Vec<(Gt, Gt)> = Vec::new();
    let mut z_vec: Vec<(G1, G1)> = Vec::new();
    let mut chals: Vec<Fr> = Vec::new();
    let mut prev = Fr { bytes: [0u8; 32] };
    let ghost mut tr: Seq<MippState> = seq![(c@, r@, vkey.v@)];
    proof {
        assert(prev.bytes@ =~= prev_challenge(chals@, 0));
    }
    while m_c.len() > 1
        invariant
            is_pow2(m_c@.len() as nat),
            m_r@.len() == m_c@.len() && m_v@.len() == m_c@.len(),
            all_wf(m_r@),
            tr.len() == chals@.len() + 1,
            tr[0] == (c@, r@, vkey.v@),
            tr[chals@.len() as int] == (m_c@, m_r@, m_v@),
            comms@.len() == chals@.len() && z_vec@.len() == chals@.len(),
            forall|k: int| 0 <= k < chals@.len() ==>
                mipp_round(#[trigger] tr[k], prev_challenge(chals@, k), comms@[k], z_vec@[k], chals@[k], tr[k + 1]),
            prev.bytes@ == prev_challenge(chals@, chals@.len() as int),
            forall|k: int| 0 <= k < chals@.len() ==> (#[trigger] chals@[k]).wf() && chals@[k].value() != 0,
            chals@.len() + log2(m_c@.len() as nat) == log2(n),
            n == c@.len(),
            is_pow2(n),
        decreases m_c@.len(),
    {
        let (comm, z, ch, n_c, n_r, n_v) = match mipp_step(&m_c, &m_r, &m_v, &prev) {
            Some(step) => step,
            None => { return Err(SynthesisError::NoChallenge); },
        };
        let ghost k = chals@.len() as int;
        let ghost old_chals = chals@;
        let ghost old_comms = comms@;
        let ghost old_z = z_vec@;
        comms.push(comm);
        z_vec.push(z);
        chals.push(ch);
        proof {
            tr = tr.push((n_c@, n_r@, n_v@));
            assert(mipp_round(tr[k], prev_challenge(chals@, k), comms@[k], z_vec@[k], chals@[k], tr[k + 1]));
            assert forall|j: int| 0 <= j < chals@.len() implies
                mipp_round(#[trigger] tr[j], prev_challenge(chals@, j), comms@[j], z_vec@[j], chals@[j], tr[j + 1]) by {
                if j < k {
                    assert(prev_challenge(chals@, j) == prev_challenge(old_chals, j));
                    assert(comms@[j] == old_comms[j]);
                    assert(z_vec@[j] == old_z[j]);
                }
            }
        }
        prev = ch;
        m_c = n_c;
        m_r = n_r;
        m_v = n_v;
    }
    proof {
        assert(!is_pow2(0));
        assert(m_c@.len() == 1);
        assert(log2(1) == 0);
    }
    let p = GipaMipp {
        comms,
        z_vec,
        final_c: m_c[0],
        final_r: m_r[0],
        final_vkey: m_v[0],
    };
    proof {
        assert(mipp_trace(tr, p, chals@));
        assert(chals@.len() == log2(c@.len() as nat));
        assert(tr[0] == (c@, r@, vkey.v@));
    }
    let res = Ok((p, chals));
    proof {
        assert(mipp_trace(tr, res.unwrap().0, res.unwrap().1@));
    }
    res
}


/// A batch of one element takes no GIPA round: the transcript is empty and the
/// finals are the inputs.
pub proof fn lemma_tipp_single(tr: Seq<TippState>, p: GipaTipp, chals: Seq<Fr>)
    requires
        tipp_trace(tr, p, chals),
        tr[0].0.len() == 1,
        chals.len() == log2(1),
    ensures
        chals.len() == 0,
        p.comms@.len() == 0 && p.z_vec@.len() == 0,
        p.final_a == tr[0].0[0] && p.final_b == tr[0].1[0],
        p.final_vkey == tr[0].2[0] && p.final_wkey == tr[0].3[0],
{
}

/// A batch of two elements takes exactly one GIPA round, and the finals are
/// the folded pairs: `A_0 + c A_1`, `B_0 + c^-1 B_1`, `v_0 + c^-1 v_1`, `w_0 + c w_1`.
pub proof fn lemma_tipp_pair(tr: Seq<TippState>, p: GipaTipp, chals: Seq<Fr>)
    requires
        tipp_trace(tr, p, chals),
        tr[0].0.len() == 2,
        chals.len() == log2(2),
    ensures
        chals.len() == 1,
        ({
            let (a, b, v, w) = tr[0];
            let ch = round_challenge(tipp_body(prev_challenge(chals, 0), p.comms@[0], p.z_vec@[0]));
            &&& chals[0].value() == ch.0
            &&& p.final_a@ == g1_fold(a[0], a[1], ch.0)
            &&& p.final_b@ == g2_fold(b[0], b[1], ch.1)
            &&& p.final_vkey@ == g2_fold(v[0], v[1], ch.1)
            &&& p.final_wkey@ == g1_fold(w[0], w[1], ch.0)
        }),
{
    assert(log2(2) == 1 + log2(1));
    assert(tipp_round(tr[0], prev_challenge(chals, 0), p.comms@[0], p.z_vec@[0], chals[0], tr[1]));
    assert(tr[1].0[0] == tr[1].0[0]);
}

} // verus!
