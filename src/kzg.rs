//! KZG openings of the final commitment keys: the quotient
//! `(f(X) - f(z)) / (X - z)` of the transcript polynomial, committed against
//! the powers tables of the SRS.

use vstd::prelude::*;
use crate::field::{Fr, fadd, fmul, fr_from_u64};
use crate::group::{G1, G2};
use crate::commit::{join, all_wf, ip_multiexp, ip_multiexp_g2, inner_product_multiexp, inner_product_multiexp_g2};
use crate::poly::{values, reduce, coeffs_int, polynomial_coefficients_from_transcript,
    polynomial_evaluation_product_form_from_transcript, divide_by_linear};
use crate::error::SynthesisError;
use vstd::arithmetic::power::pow;

verus! {

/// `q` is the quotient of `f(X) - f(z)` by `X - z`, padded with zeros to `len`
/// coefficients: `f_(k+1) = q_k - z q_(k+1)` for every `k`, reading `q` as zero
/// past its end.
pub open spec fn is_kzg_quotient(f: Seq<int>, z: int, q: Seq<Fr>, len: nat) -> bool {
    &&& q.len() == len
    &&& f.len() >= 1
    &&& len >= f.len()
    &&& all_wf(q)
    &&& forall|k: int| 0 <= k < f.len() - 2 ==> #[trigger] q[k].value() == fadd(f[k + 1], fmul(z, q[k + 1].value()))
    &&& f.len() >= 2 ==> q[f.len() - 2].value() == f[f.len() - 1]
    &&& forall|k: int| f.len() - 1 <= k < len ==> #[trigger] q[k].value() == 0
}

/// The scalars of the opening for a transcript and shift: the quotient of the
/// transcript polynomial at `z`, or `MalformedSrs` when the table length is not
/// the polynomial's number of coefficients.
pub fn kzg_quotient(srs_powers_len: usize, transcript: &Vec<Fr>, r_shift: &Fr, z: &Fr) -> (res: Result<Vec<Fr>, SynthesisError>)
    requires
        all_wf(transcript@),
        r_shift.wf(),
        z.wf(),
        pow(2, transcript@.len()) <= usize::MAX,
    ensures
        res is Err <==> srs_powers_len != pow(2, transcript@.len()),
        res is Err ==> res == Err::<Vec<Fr>, SynthesisError>(SynthesisError::MalformedSrs),
        res is Ok ==> is_kzg_quotient(reduce(coeffs_int(values(transcript@), r_shift.value())), z.value(),
            res.unwrap()@, srs_powers_len as nat),
{
    let coeffs = polynomial_coefficients_from_transcript(transcript, r_shift);
    if srs_powers_len != coeffs.len() {
        return Err(SynthesisError::MalformedSrs);
    }
    let ghost f = reduce(coeffs_int(values(transcript@), r_shift.value()));
    proof {
        vstd::arithmetic::power::lemma_pow_positive(2, transcript@.len());
    }
    // f(X) - f(z): only the constant coefficient changes
    let fz = polynomial_evaluation_product_form_from_transcript(transcript, z, r_shift);
    let mut numerator = coeffs;
    let c0 = numerator[0].minus(&fz);
    numerator.set(0, c0);
    proof {
        assert forall|k: int| 1 <= k < numerator@.len() implies #[trigger] numerator@[k] == coeffs@[k] by {}
        assert forall|k: int| 0 <= k < numerator@.len() implies #[trigger] numerator@[k].wf() by {
            if k > 0 {
                assert(numerator@[k] == coeffs@[k]);
            }
        }
    }
    let mut q = divide_by_linear(&numerator, z);
    let ghost q0 = q@;
    let zero = fr_from_u64(0);
    while q.len() < srs_powers_len
        invariant
            q@.len() <= srs_powers_len,
            q@.len() >= q0.len(),
            q@.subrange(0, q0.len() as int) == q0,
            zero.wf() && zero.value() == 0,
            all_wf(q@),
            forall|k: int| q0.len() <= k < q@.len() ==> #[trigger] q@[k].value() == 0,
        decreases srs_powers_len - q@.len(),
    {
        q.push(zero);
        proof {
            assert(q@.subrange(0, q0.len() as int) =~= q0);
        }
    }
    proof {
        assert(values(coeffs@) == f);
        assert forall|k: int| 0 <= k < q0.len() implies #[trigger] q@[k] == q0[k] by {
            assert(q@.subrange(0, q0.len() as int)[k] == q@[k]);
        }
        assert forall|k: int| 0 <= k < f.len() - 2 implies #[trigger] q@[k].value() == fadd(f[k + 1], fmul(z.value(), q@[k + 1].value())) by {
            assert(values(coeffs@)[k + 1] == coeffs@[k + 1].value());
        }
        if f.len() >= 2 {
            assert(values(coeffs@)[f.len() - 1] == coeffs@[f.len() - 1].value());
        }
    }
    Ok(q)
}

/// A KZG opening in `G1`: the quotient committed against both powers tables.
pub open spec fn g1_opening_ok(alpha: Seq<G1>, beta: Seq<G1>, t: Seq<int>, r: int, z: int, op: (G1, G1)) -> bool {
    exists|q: Seq<Fr>| #[trigger] is_kzg_quotient(reduce(coeffs_int(t, r)), z, q, alpha.len())
        && op.0@ == ip_multiexp(alpha, q) && op.1@ == ip_multiexp(beta, q)
}

/// A KZG opening in `G2`: the quotient committed against both powers tables.
pub open spec fn g2_opening_ok(alpha: Seq<G2>, beta: Seq<G2>, t: Seq<int>, r: int, z: int, op: (G2, G2)) -> bool {
    exists|q: Seq<Fr>| #[trigger] is_kzg_quotient(reduce(coeffs_int(t, r)), z, q, alpha.len())
        && op.0@ == ip_multiexp_g2(alpha, q) && op.1@ == ip_multiexp_g2(beta, q)
}

/// The KZG opening, in `G1`, of the commitment key that the transcript
/// induces; `MalformedSrs` when the tables do not have one entry per
/// coefficient of the transcript polynomial.
pub fn prove_commitment_key_kzg_opening_g1(alpha: &Vec<G1>, beta: &Vec<G1>, srs_powers_len: usize,
    transcript: &Vec<Fr>, r_shift: &Fr, kzg_challenge: &Fr) -> (res: Result<(G1, G1), SynthesisError>)
    requires
        all_wf(transcript@),
        r_shift.wf(),
        kzg_challenge.wf(),
        pow(2, transcript@.len()) <= usize::MAX,
    ensures
        res is Err <==> (srs_powers_len != pow(2, transcript@.len()) || alpha@.len() != srs_powers_len
            || beta@.len() != srs_powers_len),
        res is Err ==> res == Err::<(G1, G1), SynthesisError>(SynthesisError::MalformedSrs),
        res is Ok ==> g1_opening_ok(alpha@, beta@, values(transcript@), r_shift.value(), kzg_challenge.value(), res.unwrap()),
{
    if alpha.len() != srs_powers_len || beta.len() != srs_powers_len {
        return Err(SynthesisError::MalformedSrs);
    }
    let q = match kzg_quotient(srs_powers_len, transcript, r_shift, kzg_challenge) {
        Ok(q) => q,
        Err(e) => { return Err(e); },
    };
    let (qs, a_s, b_s) = (q.as_slice(), alpha.as_slice(), beta.as_slice());
    let op = join(
        || -> (p: G1)
            requires
                a_s@.len() >= 1 && qs@.len() == a_s@.len() && all_wf(qs@),
            ensures
                p@ == ip_multiexp(a_s@, qs@)
        {
            inner_product_multiexp(a_s, qs)
        },
        || -> (p: G1)
            requires
                b_s@.len() >= 1 && qs@.len() == b_s@.len() && all_wf(qs@),
            ensures
                p@ == ip_multiexp(b_s@, qs@)
        {
            inner_product_multiexp(b_s, qs)
        },
    );
    proof {
        assert(is_kzg_quotient(reduce(coeffs_int(values(transcript@), r_shift.value())), kzg_challenge.value(), q@, alpha@.len()));
    }
    Ok(op)
}

/// The KZG opening, in `G2`, of the commitment key that the transcript
/// induces; `MalformedSrs` when the tables do not have one entry per
/// coefficient of the transcript polynomial.
pub fn prove_commitment_key_kzg_opening(alpha: &Vec<G2>, beta: &Vec<G2>, srs_powers_len: usize,
    transcript: &Vec<Fr>, r_shift: &Fr, kzg_challenge: &Fr) -> (res: Result<(G2, G2), SynthesisError>)
    requires
        all_wf(transcript@),
        r_shift.wf(),
        kzg_challenge.wf(),
        pow(2, transcript@.len()) <= usize::MAX,
    ensures
        res is Err <==> (srs_powers_len != pow(2, transcript@.len()) || alpha@.len() != srs_powers_len
            || beta@.len() != srs_powers_len),
        res is Err ==> res == Err::<(G2, G2), SynthesisError>(SynthesisError::MalformedSrs),
        res is Ok ==> g2_opening_ok(alpha@, beta@, values(transcript@), r_shift.value(), kzg_challenge.value(), res.unwrap()),
{
    if alpha.len() != srs_powers_len || beta.len() != srs_powers_len {
        return Err(SynthesisError::MalformedSrs);
    }
    let q = match kzg_quotient(srs_powers_len, transcript, r_shift, kzg_challenge) {
        Ok(q) => q,
        Err(e) => { return Err(e); },
    };
    let (qs, a_s, b_s) = (q.as_slice(), alpha.as_slice(), beta.as_slice());
    let op = join(
        || -> (p: G2)
            requires
                a_s@.len() >= 1 && qs@.len() == a_s@.len() && all_wf(qs@),
            ensures
                p@ == ip_multiexp_g2(a_s@, qs@)
        {
            inner_product_multiexp_g2(a_s, qs)
        },
        || -> (p: G2)
            requires
                b_s@.len() >= 1 && qs@.len() == b_s@.len() && all_wf(qs@),
            ensures
                p@ == ip_multiexp_g2(b_s@, qs@)
        {
            inner_product_multiexp_g2(b_s, qs)
        },
    );
    proof {
        assert(is_kzg_quotient(reduce(coeffs_int(values(transcript@), r_shift.value())), kzg_challenge.value(), q@, alpha@.len()));
    }
    Ok(op)
}

} // verus!
