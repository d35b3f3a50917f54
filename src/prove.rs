//! The aggregation prover: TIPP over `(A^r, B)`, MIPP over `(C, r)`, and the
//! orchestration that commits to a batch of Groth16 proofs and aggregates it.

use vstd::prelude::*;
use crate::field::{Fr, modulus, fmul, fpow, fr_from_u64, fr_inverse, structured_scalar_power};
use crate::group::{G1, G2, Gt, g1_mul, g1_mul_of, g2_mul_of};
use crate::commit::{VKey, WKey, all_wf, ip_pairing, ip_multiexp, join, pair_slices,
    inner_product_pairing, inner_product_multiexp};
use crate::transcript::{challenge_exhausted, finv, wide_challenge, derive_wide_challenge, append_bytes, lemma_inverse_unique};
use crate::gipa::{GipaTipp, GipaMipp, TippState, MippState, tipp_trace, mipp_trace, prev_challenge,
    gipa_tipp, gipa_mipp};
use crate::kzg::{g1_opening_ok, g2_opening_ok, prove_commitment_key_kzg_opening, prove_commitment_key_kzg_opening_g1};
use crate::poly::values;
use crate::pow2::{is_pow2, log2, lemma_pow2_log2, is_power_of_two};
use crate::error::SynthesisError;

verus! {

/// A Groth16 proof.
#[derive(Clone, Copy, Debug)]
pub struct Proof {
    pub a: G1,
    pub b: G2,
    pub c: G1,
}

/// The structured reference string: powers tables for the KZG openings, their
/// common length, and the commitment keys.
#[derive(Clone, Debug)]
pub struct Srs {
    pub n: usize,
    pub g_alpha_powers: Vec<G1>,
    pub g_beta_powers: Vec<G1>,
    pub h_alpha_powers: Vec<G2>,
    pub h_beta_powers: Vec<G2>,
    pub vkey: VKey,
    pub wkey: WKey,
}

/// A TIPP proof: the GIPA record and the openings of both final keys.
#[derive(Debug)]
pub struct TippProof {
    pub gipa: GipaTipp,
    pub vkey_opening: (G2, G2),
    pub wkey_opening: (G1, G1),
}

/// A MIPP proof: the GIPA record and the opening of the final key.
#[derive(Debug)]
pub struct MippProof {
    pub gipa: GipaMipp,
    pub vkey_opening: (G2, G2),
}

/// The aggregate of a batch of Groth16 proofs.
#[derive(Debug)]
pub struct AggregateProof {
    pub com_ab: (Gt, Gt),
    pub com_c: Gt,
    pub ip_ab: Gt,
    pub agg_c: G1,
    pub proof_ab: TippProof,
    pub proof_c: MippProof,
}

/// The inverses of the challenges.
pub open spec fn inv_values(t: Seq<Fr>) -> Seq<int> {
    t.map_values(|c: Fr| finv(c.value()))
}

/// What the KZG challenge of a TIPP proof hashes after the retry counter.
pub open spec fn tipp_kzg_body(chals: Seq<Fr>, g: GipaTipp) -> Seq<u8> {
    prev_challenge(chals, if chals.len() == 0 { 0 } else { 1 }) + g.final_vkey@ + g.final_wkey@
}

/// What the KZG challenge of a MIPP proof hashes after the retry counter.
pub open spec fn mipp_kzg_body(chals: Seq<Fr>, g: GipaMipp) -> Seq<u8> {
    prev_challenge(chals, if chals.len() == 0 { 0 } else { 1 }) + g.final_vkey@
}

/// `p` proves TIPP for `(a, b)` under `(v, w)` with shift `r`: a GIPA record of
/// `log2 n` rounds from these vectors, and the openings of the final keys at the
/// challenge that the record determines.
#[verifier::opaque]
pub open spec fn tipp_proof_ok(srs: Srs, a: Seq<G1>, b: Seq<G2>, v: Seq<G2>, w: Seq<G1>, r: int, p: TippProof) -> bool {
    exists|chals: Seq<Fr>| {
        &&& chals.len() == log2(a.len())
        &&& forall|k: int| 0 <= k < chals.len() ==> (#[trigger] chals[k]).wf() && chals[k].value() != 0
        &&& exists|tr: Seq<TippState>| tr[0] == (a, b, v, w) && #[trigger] tipp_trace(tr, p.gipa, chals)
        &&& {
            let z = wide_challenge(tipp_kzg_body(chals, p.gipa));
            &&& g2_opening_ok(srs.h_alpha_powers@, srs.h_beta_powers@, inv_values(chals).reverse(), finv(r), z, p.vkey_opening)
            &&& g1_opening_ok(srs.g_alpha_powers@, srs.g_beta_powers@, values(chals), 1, z, p.wkey_opening)
        }
    }
}

/// `p` proves MIPP for `(c, r)` under `v`: a GIPA record of `log2 n` rounds from
/// these vectors, and the opening of the final key at the challenge that the
/// record determines.
#[verifier::opaque]
pub open spec fn mipp_proof_ok(srs: Srs, c: Seq<G1>, r: Seq<Fr>, v: Seq<G2>, p: MippProof) -> bool {
    exists|chals: Seq<Fr>| {
        &&& chals.len() == log2(c.len())
        &&& forall|k: int| 0 <= k < chals.len() ==> (#[trigger] chals[k]).wf() && chals[k].value() != 0
        &&& exists|tr: Seq<MippState>| tr[0] == (c, r, v) && #[trigger] mipp_trace(tr, p.gipa, chals)
        &&& g2_opening_ok(srs.h_alpha_powers@, srs.h_beta_powers@, inv_values(chals).reverse(), 1,
            wide_challenge(mipp_kzg_body(chals, p.gipa)), p.vkey_opening)
    }
}

/// The tables and keys of the SRS do not all have length `n`.
pub open spec fn srs_mismatch(srs: Srs, n: nat) -> bool {
    srs.n != n || srs.g_alpha_powers@.len() != n || srs.g_beta_powers@.len() != n
        || srs.h_alpha_powers@.len() != n || srs.h_beta_powers@.len() != n
}

impl Srs {
    /// The commitment keys `(vkey, wkey)`.
    pub fn get_commitment_keys(&self) -> (r: (VKey, WKey))
        ensures
            r.0.v@ == self.vkey.v@,
            r.1.w@ == self.wkey.w@,
    {
        let (v, _) = self.vkey.split(self.vkey.v.len());
        let (w, _) = self.wkey.split(self.wkey.w.len());
        proof {
            assert(self.vkey.v@.subrange(0, self.vkey.v@.len() as int) =~= self.vkey.v@);
            assert(self.wkey.w@.subrange(0, self.wkey.w@.len() as int) =~= self.wkey.w@);
        }
        (v, w)
    }
}

fn invert_all(t: &Vec<Fr>) -> (r: Vec<Fr>)
    requires
        forall|k: int| 0 <= k < t@.len() ==> (#[trigger] t@[k]).wf() && t@[k].value() != 0,
    ensures
        r@.len() == t@.len(),
        all_wf(r@),
        values(r@) == inv_values(t@),
{
    let mut r: Vec<Fr> = Vec::new();
    let mut i: usize = 0;
    while i < t.len()
        invariant
            i <= t@.len(),
            forall|k: int| 0 <= k < t@.len() ==> (#[trigger] t@[k]).wf() && t@[k].value() != 0,
            r@.len() == i,
            all_wf(r@),
            forall|k: int| 0 <= k < i ==> (#[trigger] r@[k]).value() == finv(t@[k].value()),
        decreases t@.len() - i,
    {
        let x = &t[i];
        let inv = match fr_inverse(x) {
            Some(inv) => inv,
            None => { fr_from_u64(1) },
        };
        proof {
            assert(t@[i as int].wf());
            crate::field::lemma_le_value_bound(inv.bytes@);
            assert(0 <= inv.value() < modulus() && fmul(x.value(), inv.value()) == 1);
            lemma_inverse_unique(x.value(), inv.value(), finv(x.value()));
        }
        r.push(inv);
        i = i + 1;
    }
    proof {
        assert(values(r@) =~= inv_values(t@));
    }
    r
}

fn reverse_fr(t: &Vec<Fr>) -> (r: Vec<Fr>)
    ensures
        r@ == t@.reverse(),
{
    let mut r: Vec<Fr> = Vec::new();
    let mut i: usize = t.len();
    while i > 0
        invariant
            i <= t@.len(),
            r@.len() == t@.len() - i,
            forall|k: int| 0 <= k < r@.len() ==> #[trigger] r@[k] == t@[t@.len() - 1 - k],
        decreases i,
    {
        i = i - 1;
        r.push(t[i]);
    }
    proof {
        assert(r@ =~= t@.reverse());
    }
    r
}

/// The challenge that the KZG point chains from: the first round's, or the
/// field zero when there was no round.
fn first_challenge(chals: &Vec<Fr>) -> (r: Fr)
    ensures
        r.bytes@ == prev_challenge(chals@, if chals@.len() == 0 { 0 } else { 1 }),
{
    if chals.len() == 0 {
        let z = Fr { bytes: [0u8; 32] };
        proof {
            assert(z.bytes@ =~= Seq::new(32, |i: int| 0u8));
        }
        z
    } else {
        chals[0]
    }
}

/// Proves the TIPP relation for `(a, b)` under `(vkey, wkey)`, the keys being
/// rescaled by `r_shift^-1` on the `vkey` side.
pub fn prove_tipp(srs: &Srs, a: &Vec<G1>, b: &Vec<G2>, vkey: &VKey, wkey: &WKey, r_shift: &Fr) -> (res: Result<TippProof, SynthesisError>)
    requires
        r_shift.wf(),
        r_shift.value() != 0,
    ensures
        (!is_pow2(a@.len() as nat) || b@.len() != a@.len())
            ==> res == Err::<TippProof, SynthesisError>(SynthesisError::MalformedProofs),
        (is_pow2(a@.len() as nat) && b@.len() == a@.len() && (vkey.v@.len() != a@.len()
            || wkey.w@.len() != a@.len() || srs_mismatch(*srs, a@.len() as nat)))
            ==> res == Err::<TippProof, SynthesisError>(SynthesisError::MalformedSrs),
        (is_pow2(a@.len() as nat) && b@.len() == a@.len() && vkey.v@.len() == a@.len()
            && wkey.w@.len() == a@.len() && !srs_mismatch(*srs, a@.len() as nat))
            ==> res is Ok || res == Err::<TippProof, SynthesisError>(SynthesisError::NoChallenge),
        res == Err::<TippProof, SynthesisError>(SynthesisError::NoChallenge) ==> challenge_exhausted(),
        res is Ok ==> tipp_proof_ok(*srs, a@, b@, vkey.v@, wkey.w@, r_shift.value(), res.unwrap()),
{
    let n = a.len();
    if !is_power_of_two(n) || b.len() != n {
        return Err(SynthesisError::MalformedProofs);
    }
    if vkey.v.len() != n || wkey.w.len() != n || srs.n != n || srs.g_alpha_powers.len() != n
        || srs.g_beta_powers.len() != n || srs.h_alpha_powers.len() != n || srs.h_beta_powers.len() != n {
        return Err(SynthesisError::MalformedSrs);
    }
    let (gipa, chals) = match gipa_tipp(a, b, vkey, wkey) {
        Ok(out) => out,
        Err(e) => { return Err(e); },
    };
    proof {
        lemma_pow2_log2(n as nat);
    }
    let inverses = invert_all(&chals);
    let transcript_inverse = reverse_fr(&inverses);
    let r_inverse = match fr_inverse(r_shift) {
        Some(x) => x,
        None => { fr_from_u64(1) },
    };
    proof {
        crate::field::lemma_le_value_bound(r_inverse.bytes@);
        lemma_inverse_unique(r_shift.value(), r_inverse.value(), finv(r_shift.value()));
    }
    let first = first_challenge(&chals);
    let mut body: Vec<u8> = Vec::new();
    append_bytes(&mut body, first.bytes.as_slice());
    append_bytes(&mut body, gipa.final_vkey.bytes.as_slice());
    append_bytes(&mut body, gipa.final_wkey.bytes.as_slice());
    proof {
        assert(body@ =~= tipp_kzg_body(chals@, gipa));
    }
    let z = match derive_wide_challenge(&body) {
        Some(z) => z,
        None => { return Err(SynthesisError::NoChallenge); },
    };
    let one = fr_from_u64(1);
    proof {
        assert(values(transcript_inverse@) =~= inv_values(chals@).reverse());
        assert forall|k: int| 0 <= k < transcript_inverse@.len() implies #[trigger] transcript_inverse@[k].wf() by {
            assert(transcript_inverse@[k] == inverses@[inverses@.len() - 1 - k]);
        }
        assert forall|k: int| 0 <= k < chals@.len() implies #[trigger] chals@[k].wf() by {}
    }
    let vkey_opening = match prove_commitment_key_kzg_opening(&srs.h_alpha_powers, &srs.h_beta_powers, srs.n,
        &transcript_inverse, &r_inverse, &z) {
        Ok(op) => op,
        Err(e) => { return Err(e); },
    };
    let wkey_opening = match prove_commitment_key_kzg_opening_g1(&srs.g_alpha_powers, &srs.g_beta_powers, srs.n,
        &chals, &one, &z) {
        Ok(op) => op,
        Err(e) => { return Err(e); },
    };
    let p = TippProof { gipa, vkey_opening, wkey_opening };
    proof {
        reveal(tipp_proof_ok);
        assert(tipp_proof_ok(*srs, a@, b@, vkey.v@, wkey.w@, r_shift.value(), p) ) by {
            let tr = choose|tr: Seq<TippState>| tr[0] == (a@, b@, vkey.v@, wkey.w@) && #[trigger] tipp_trace(tr, p.gipa, chals@);
            assert(tr[0] == (a@, b@, vkey.v@, wkey.w@) && tipp_trace(tr, p.gipa, chals@));
        }
    }
    Ok(p)
}

/// Proves the MIPP relation for `(c, r)` under `vkey`.
pub fn prove_mipp(srs: &Srs, c: &Vec<G1>, r: &Vec<Fr>, vkey: &VKey) -> (res: Result<MippProof, SynthesisError>)
    requires
        all_wf(r@),
    ensures
        (!is_pow2(c@.len() as nat) || r@.len() != c@.len())
            ==> res == Err::<MippProof, SynthesisError>(SynthesisError::MalformedProofs),
        (is_pow2(c@.len() as nat) && r@.len() == c@.len() && (vkey.v@.len() != c@.len()
            || srs_mismatch(*srs, c@.len() as nat)))
            ==> res == Err::<MippProof, SynthesisError>(SynthesisError::MalformedSrs),
        (is_pow2(c@.len() as nat) && r@.len() == c@.len() && vkey.v@.len() == c@.len()
            && !srs_mismatch(*srs, c@.len() as nat))
            ==> res is Ok || res == Err::<MippProof, SynthesisError>(SynthesisError::NoChallenge),
        res == Err::<MippProof, SynthesisError>(SynthesisError::NoChallenge) ==> challenge_exhausted(),
        res is Ok ==> mipp_proof_ok(*srs, c@, r@, vkey.v@, res.unwrap()),
{
    let n = c.len();
    if !is_power_of_two(n) || r.len() != n {
        return Err(SynthesisError::MalformedProofs);
    }
    if vkey.v.len() != n || srs.n != n || srs.g_alpha_powers.len() != n
        || srs.g_beta_powers.len() != n || srs.h_alpha_powers.len() != n || srs.h_beta_powers.len() != n {
        return Err(SynthesisError::MalformedSrs);
    }
    let (gipa, chals) = match gipa_mipp(c, r, vkey) {
        Ok(out) => out,
        Err(e) => { return Err(e); },
    };
    proof {
        lemma_pow2_log2(n as nat);
    }
    let inverses = invert_all(&chals);
    let transcript_inverse = reverse_fr(&inverses);
    let first = first_challenge(&chals);
    let mut body: Vec<u8> = Vec::new();
    append_bytes(&mut body, first.bytes.as_slice());
    append_bytes(&mut body, gipa.final_vkey.bytes.as_slice());
    proof {
        assert(body@ =~= mipp_kzg_body(chals@, gipa));
    }
    let z = match derive_wide_challenge(&body) {
        Some(z) => z,
        None => { return Err(SynthesisError::NoChallenge); },
    };
    let one = fr_from_u64(1);
    proof {
        assert(values(transcript_inverse@) =~= inv_values(chals@).reverse());
        assert forall|k: int| 0 <= k < transcript_inverse@.len() implies #[trigger] transcript_inverse@[k].wf() by {
            assert(transcript_inverse@[k] == inverses@[inverses@.len() - 1 - k]);
        }
    }
    let vkey_opening = match prove_commitment_key_kzg_opening(&srs.h_alpha_powers, &srs.h_beta_powers, srs.n,
        &transcript_inverse, &one, &z) {
        Ok(op) => op,
        Err(e) => { return Err(e); },
    };
    let p = MippProof { gipa, vkey_opening };
    proof {
        reveal(mipp_proof_ok);
        assert(mipp_proof_ok(*srs, c@, r@, vkey.v@, p)) by {
            let tr = choose|tr: Seq<MippState>| tr[0] == (c@, r@, vkey.v@) && #[trigger] mipp_trace(tr, p.gipa, chals@);
            assert(tr[0] == (c@, r@, vkey.v@) && mipp_trace(tr, p.gipa, chals@));
        }
    }
    Ok(p)
}


/// The `A` components of a batch.
pub open spec fn proofs_a(p: Seq<Proof>) -> Seq<G1> {
    p.map_values(|x: Proof| x.a)
}

/// The `B` components of a batch.
pub open spec fn proofs_b(p: Seq<Proof>) -> Seq<G2> {
    p.map_values(|x: Proof| x.b)
}

/// The `C` components of a batch.
pub open spec fn proofs_c(p: Seq<Proof>) -> Seq<G1> {
    p.map_values(|x: Proof| x.c)
}

/// What the rescaling challenge `r` hashes after the retry counter.
pub open spec fn rescale_body(com_ab: (Gt, Gt), com_c: Gt) -> Seq<u8> {
    com_ab.0@ + com_ab.1@ + com_c@
}

/// `agg` aggregates `proofs` under `srs`: it commits to `A`, `B` and `C` under
/// the SRS keys, derives `r` from those commitments, and holds
/// `ip_ab = prod e(A_i^(r^i), B_i)`, `agg_c = prod C_i^(r^i)` and the TIPP and
/// MIPP proofs for the rescaled vectors.
pub open spec fn aggregate_ok(srs: Srs, proofs: Seq<Proof>, agg: AggregateProof) -> bool {
    let n = proofs.len();
    let (a, b, c) = (proofs_a(proofs), proofs_b(proofs), proofs_c(proofs));
    let (v, w) = (srs.vkey.v@, srs.wkey.w@);
    let r = wide_challenge(rescale_body(agg.com_ab, agg.com_c));
    &&& is_pow2(n as nat)
    &&& agg.com_ab.0@ == ip_pairing(a, v)
    &&& agg.com_ab.1@ == ip_pairing(w, b)
    &&& agg.com_c@ == ip_pairing(c, v)
    &&& 0 < r < modulus()
    &&& exists|a_r: Seq<G1>, v_r: Seq<G2>, r_vec: Seq<Fr>| {
        &&& a_r.len() == n && v_r.len() == n && r_vec.len() == n
        &&& forall|i: int| 0 <= i < n ==> {
            &&& (#[trigger] a_r[i])@ == g1_mul_of(a[i]@, fpow(r, i as nat))
            &&& v_r[i]@ == g2_mul_of(v[i]@, fpow(finv(r), i as nat))
            &&& r_vec[i].wf() && r_vec[i].value() == fpow(r, i as nat)
        }
        &&& agg.ip_ab@ == ip_pairing(a_r, b)
        &&& agg.agg_c@ == ip_multiexp(c, r_vec)
        &&& #[trigger] tipp_proof_ok(srs, a_r, b, v_r, w, r, agg.proof_ab)
        &&& #[trigger] mipp_proof_ok(srs, c, r_vec, v, agg.proof_c)
    }
}

fn split_proofs(proofs: &Vec<Proof>) -> (r: (Vec<G1>, Vec<G2>, Vec<G1>))
    ensures
        r.0@ == proofs_a(proofs@),
        r.1@ == proofs_b(proofs@),
        r.2@ == proofs_c(proofs@),
{
    let mut a: Vec<G1> = Vec::new();
    let mut b: Vec<G2> = Vec::new();
    let mut c: Vec<G1> = Vec::new();
    let mut i: usize = 0;
    while i < proofs.len()
        invariant
            i <= proofs@.len(),
            a@ == proofs_a(proofs@).subrange(0, i as int),
            b@ == proofs_b(proofs@).subrange(0, i as int),
            c@ == proofs_c(proofs@).subrange(0, i as int),
        decreases proofs@.len() - i,
    {
        a.push(proofs[i].a);
        b.push(proofs[i].b);
        c.push(proofs[i].c);
        proof {
            assert(a@ =~= proofs_a(proofs@).subrange(0, i + 1));
            assert(b@ =~= proofs_b(proofs@).subrange(0, i + 1));
            assert(c@ =~= proofs_c(proofs@).subrange(0, i + 1));
        }
        i = i + 1;
    }
    proof {
        assert(a@ =~= proofs_a(proofs@));
        assert(b@ =~= proofs_b(proofs@));
        assert(c@ =~= proofs_c(proofs@));
    }
    (a, b, c)
}

fn rescale_g1(a: &Vec<G1>, s: &Vec<Fr>) -> (r: Vec<G1>)
    requires
        s@.len() == a@.len(),
        all_wf(s@),
    ensures
        r@.len() == a@.len(),
        forall|i: int| 0 <= i < a@.len() ==> (#[trigger] r@[i])@ == g1_mul_of(a@[i]@, s@[i].value()),
{
    let mut r: Vec<G1> = Vec::new();
    let mut i: usize = 0;
    while i < a.len()
        invariant
            i <= a@.len(),
            s@.len() == a@.len(),
            all_wf(s@),
            r@.len() == i,
            forall|j: int| 0 <= j < i ==> (#[trigger] r@[j])@ == g1_mul_of(a@[j]@, s@[j].value()),
        decreases a@.len() - i,
    {
        r.push(g1_mul(&a[i], &s[i]));
        i = i + 1;
    }
    r
}

/// Aggregates `n` Groth16 proofs, `n` a power of two, into one proof:
/// `MalformedProofs` when `n` is not a power of two, `MalformedSrs` when the
/// SRS does not have size `n`.
pub fn aggregate_proofs(srs: &Srs, proofs: &Vec<Proof>) -> (res: Result<AggregateProof, SynthesisError>)
    ensures
        !is_pow2(proofs@.len() as nat)
            ==> res == Err::<AggregateProof, SynthesisError>(SynthesisError::MalformedProofs),
        (is_pow2(proofs@.len() as nat) && (srs.vkey.v@.len() != proofs@.len() || srs.wkey.w@.len() != proofs@.len()
            || srs_mismatch(*srs, proofs@.len() as nat)))
            ==> res == Err::<AggregateProof, SynthesisError>(SynthesisError::MalformedSrs),
        (is_pow2(proofs@.len() as nat) && srs.vkey.v@.len() == proofs@.len()
            && srs.wkey.w@.len() == proofs@.len() && !srs_mismatch(*srs, proofs@.len() as nat))
            ==> res is Ok || res == Err::<AggregateProof, SynthesisError>(SynthesisError::NoChallenge),
        res == Err::<AggregateProof, SynthesisError>(SynthesisError::NoChallenge) ==> challenge_exhausted(),
        res is Ok ==> aggregate_ok(*srs, proofs@, res.unwrap()),
{
    let n = proofs.len();
    if !is_power_of_two(n) {
        return Err(SynthesisError::MalformedProofs);
    }
    let (vkey, wkey) = srs.get_commitment_keys();
    if !vkey.correct_len(n) || !wkey.correct_len(n) || srs.n != n || srs.g_alpha_powers.len() != n
        || srs.g_beta_powers.len() != n || srs.h_alpha_powers.len() != n || srs.h_beta_powers.len() != n {
        return Err(SynthesisError::MalformedSrs);
    }
    proof {
        assert(!is_pow2(0));
    }
    let (a, b, c) = split_proofs(proofs);
    let (a_s, b_s, c_s, v_s, w_s) = (a.as_slice(), b.as_slice(), c.as_slice(), vkey.v.as_slice(), wkey.w.as_slice());
    let (com_ab, com_c) = join(
        || -> (r: (Gt, Gt))
            requires
                a_s@.len() >= 1,
                v_s@.len() == a_s@.len() && w_s@.len() == a_s@.len() && b_s@.len() == a_s@.len(),
            ensures
                r.0@ == ip_pairing(a_s@, v_s@) && r.1@ == ip_pairing(w_s@, b_s@)
        {
            pair_slices(v_s, w_s, a_s, b_s)
        },
        || -> (r: Gt)
            requires
                c_s@.len() >= 1 && v_s@.len() == c_s@.len(),
            ensures
                r@ == ip_pairing(c_s@, v_s@)
        {
            inner_product_pairing(c_s, v_s)
        },
    );
    let mut body: Vec<u8> = Vec::new();
    append_bytes(&mut body, com_ab.0.bytes.as_slice());
    append_bytes(&mut body, com_ab.1.bytes.as_slice());
    append_bytes(&mut body, com_c.bytes.as_slice());
    proof {
        assert(body@ =~= rescale_body(com_ab, com_c));
    }
    let r = match derive_wide_challenge(&body) {
        Some(r) => r,
        None => { return Err(SynthesisError::NoChallenge); },
    };
    let r_inv = match fr_inverse(&r) {
        Some(x) => x,
        None => { fr_from_u64(1) },
    };
    proof {
        crate::field::lemma_le_value_bound(r_inv.bytes@);
        lemma_inverse_unique(r.value(), r_inv.value(), finv(r.value()));
    }
    let r_vec = structured_scalar_power(n, &r);
    let r_inv_vec = structured_scalar_power(n, &r_inv);
    proof {
        assert forall|i: int| 0 <= i < r_vec@.len() implies #[trigger] r_vec@[i].wf() by {}
        assert forall|i: int| 0 <= i < r_inv_vec@.len() implies #[trigger] r_inv_vec@[i].wf() by {}
    }
    let a_r = rescale_g1(&a, &r_vec);
    let vkey_r_inv = vkey.scale(&r_inv_vec);
    let proof_ab = match prove_tipp(srs, &a_r, &b, &vkey_r_inv, &wkey, &r) {
        Ok(p) => p,
        Err(e) => { return Err(e); },
    };
    let proof_c = match prove_mipp(srs, &c, &r_vec, &vkey) {
        Ok(p) => p,
        Err(e) => { return Err(e); },
    };
    let (ar_s, r_s) = (a_r.as_slice(), r_vec.as_slice());
    let (ip_ab, agg_c) = join(
        || -> (r: Gt)
            requires
                ar_s@.len() >= 1 && b_s@.len() == ar_s@.len(),
            ensures
                r@ == ip_pairing(ar_s@, b_s@)
        {
            inner_product_pairing(ar_s, b_s)
        },
        || -> (r: G1)
            requires
                c_s@.len() >= 1 && r_s@.len() == c_s@.len() && all_wf(r_s@),
            ensures
                r@ == ip_multiexp(c_s@, r_s@)
        {
            inner_product_multiexp(c_s, r_s)
        },
    );
    let agg = AggregateProof { com_ab, com_c, ip_ab, agg_c, proof_ab, proof_c };
    proof {
        let rv = r.value();
        assert(wide_challenge(rescale_body(agg.com_ab, agg.com_c)) == rv);
        assert(tipp_proof_ok(*srs, a_r@, b@, vkey_r_inv.v@, wkey.w@, rv, agg.proof_ab));
        assert forall|i: int| 0 <= i < n implies {
            &&& (#[trigger] a_r@[i])@ == g1_mul_of(proofs_a(proofs@)[i]@, fpow(rv, i as nat))
            &&& vkey_r_inv.v@[i]@ == g2_mul_of(srs.vkey.v@[i]@, fpow(finv(rv), i as nat))
            &&& r_vec@[i].wf() && r_vec@[i].value() == fpow(rv, i as nat)
        } by {}
        assert(mipp_proof_ok(*srs, c@, r_vec@, vkey.v@, agg.proof_c));
        assert(agg.ip_ab@ == ip_pairing(a_r@, b@));
        assert(agg.agg_c@ == ip_multiexp(c@, r_vec@));
        crate::field::lemma_le_value_bound(r.bytes@);
        assert(0 < rv < modulus());
        assert(agg.com_ab.0@ == ip_pairing(proofs_a(proofs@), srs.vkey.v@));
        assert(agg.com_c@ == ip_pairing(proofs_c(proofs@), srs.vkey.v@));
    }
    let res = Ok(agg);
    proof {
        let ag = res.unwrap();
        let rv = wide_challenge(rescale_body(ag.com_ab, ag.com_c));
        assert(ag.ip_ab@ == ip_pairing(a_r@, proofs_b(proofs@)));
        assert(ag.agg_c@ == ip_multiexp(proofs_c(proofs@), r_vec@));
        assert(tipp_proof_ok(*srs, a_r@, proofs_b(proofs@), vkey_r_inv.v@, srs.wkey.w@, rv, ag.proof_ab));
        assert(mipp_proof_ok(*srs, proofs_c(proofs@), r_vec@, srs.vkey.v@, ag.proof_c));
        assert(aggregate_ok(*srs, proofs@, res.unwrap()));
    }
    res
}


/// `prod e(a_i, b_i)` depends on the encodings of the points alone.
proof fn lemma_ip_pairing_views(a1: Seq<G1>, a2: Seq<G1>, b: Seq<G2>)
    requires
        a1.len() == a2.len(),
        a1.len() >= 1,
        b.len() == a1.len(),
        forall|i: int| 0 <= i < a1.len() ==> (#[trigger] a1[i])@ == a2[i]@,
    ensures
        ip_pairing(a1, b) == ip_pairing(a2, b),
    decreases a1.len(),
{
    assert(a1[0]@ == a2[0]@);
    if a1.len() > 1 {
        lemma_ip_pairing_views(a1.drop_last(), a2.drop_last(), b.drop_last());
        assert(a1.last()@ == a2.last()@);
    }
}

/// `prod c_i^(s_i)` depends on the encodings of the points and the values of
/// the scalars alone.
proof fn lemma_ip_multiexp_values(c: Seq<G1>, s1: Seq<Fr>, s2: Seq<Fr>)
    requires
        s1.len() == s2.len(),
        s1.len() == c.len(),
        c.len() >= 1,
        forall|i: int| 0 <= i < s1.len() ==> (#[trigger] s1[i]).value() == s2[i].value(),
    ensures
        ip_multiexp(c, s1) == ip_multiexp(c, s2),
    decreases c.len(),
{
    assert(s1[0].value() == s2[0].value());
    if c.len() > 1 {
        lemma_ip_multiexp_values(c.drop_last(), s1.drop_last(), s2.drop_last());
        assert(s1[c.len() - 1].value() == s2[c.len() - 1].value());
    }
}

/// Aggregating the same batch under the same SRS twice gives the same
/// commitments `com_ab` and `com_c`, the same `ip_ab` and the same `agg_c`.
pub proof fn lemma_aggregate_deterministic(srs: Srs, proofs: Seq<Proof>, first: AggregateProof, second: AggregateProof)
    requires
        aggregate_ok(srs, proofs, first),
        aggregate_ok(srs, proofs, second),
    ensures
        first.com_ab.0@ == second.com_ab.0@ && first.com_ab.1@ == second.com_ab.1@,
        first.com_c@ == second.com_c@,
        first.ip_ab@ == second.ip_ab@,
        first.agg_c@ == second.agg_c@,
{
    let n = proofs.len();
    let (a, b, c) = (proofs_a(proofs), proofs_b(proofs), proofs_c(proofs));
    let r = wide_challenge(rescale_body(first.com_ab, first.com_c));
    assert(rescale_body(first.com_ab, first.com_c) == rescale_body(second.com_ab, second.com_c));
    let (a_first, v_first, s_first) = choose|a_r: Seq<G1>, v_r: Seq<G2>, r_vec: Seq<Fr>| {
        &&& a_r.len() == n && v_r.len() == n && r_vec.len() == n
        &&& forall|i: int| 0 <= i < n ==> {
            &&& (#[trigger] a_r[i])@ == g1_mul_of(a[i]@, fpow(r, i as nat))
            &&& v_r[i]@ == g2_mul_of(srs.vkey.v@[i]@, fpow(finv(r), i as nat))
            &&& r_vec[i].wf() && r_vec[i].value() == fpow(r, i as nat)
        }
        &&& first.ip_ab@ == ip_pairing(a_r, b)
        &&& first.agg_c@ == ip_multiexp(c, r_vec)
        &&& #[trigger] tipp_proof_ok(srs, a_r, b, v_r, srs.wkey.w@, r, first.proof_ab)
        &&& #[trigger] mipp_proof_ok(srs, c, r_vec, srs.vkey.v@, first.proof_c)
    };
    let (a_second, v_second, s_second) = choose|a_r: Seq<G1>, v_r: Seq<G2>, r_vec: Seq<Fr>| {
        &&& a_r.len() == n && v_r.len() == n && r_vec.len() == n
        &&& forall|i: int| 0 <= i < n ==> {
            &&& (#[trigger] a_r[i])@ == g1_mul_of(a[i]@, fpow(r, i as nat))
            &&& v_r[i]@ == g2_mul_of(srs.vkey.v@[i]@, fpow(finv(r), i as nat))
            &&& r_vec[i].wf() && r_vec[i].value() == fpow(r, i as nat)
        }
        &&& second.ip_ab@ == ip_pairing(a_r, b)
        &&& second.agg_c@ == ip_multiexp(c, r_vec)
        &&& #[trigger] tipp_proof_ok(srs, a_r, b, v_r, srs.wkey.w@, r, second.proof_ab)
        &&& #[trigger] mipp_proof_ok(srs, c, r_vec, srs.vkey.v@, second.proof_c)
    };
    assert(!is_pow2(0));
    assert forall|i: int| 0 <= i < a_first.len() implies (#[trigger] a_first[i])@ == a_second[i]@ by {}
    assert forall|i: int| 0 <= i < s_first.len() implies (#[trigger] s_first[i]).value() == s_second[i].value() by {
        assert(a_first[i]@ == a_second[i]@);
    }
    lemma_ip_pairing_views(a_first, a_second, b);
    lemma_ip_multiexp_values(c, s_first, s_second);
}

} // verus!
