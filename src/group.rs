//! The groups of BLS12-381, each element held as a canonical byte encoding:
//! `G1` and `G2` compressed, `Gt` as its twelve base-field coordinates.
//! The group laws and the pairing are computed by blstrs; their results are
//! named by the spec functions below.

use vstd::prelude::*;
use crate::field::Fr;
use group::Group;
use group::prime::PrimeCurveAffine;
use digest::Digest;

verus! {

/// What blstrs gives for the sum of two `G1` points.
pub uninterp spec fn g1_add_of(a: Seq<u8>, b: Seq<u8>) -> Seq<u8>;

/// What blstrs gives for a `G1` point times a scalar.
pub uninterp spec fn g1_mul_of(p: Seq<u8>, s: int) -> Seq<u8>;

/// What blstrs gives for the sum of two `G2` points.
pub uninterp spec fn g2_add_of(a: Seq<u8>, b: Seq<u8>) -> Seq<u8>;

/// What blstrs gives for a `G2` point times a scalar.
pub uninterp spec fn g2_mul_of(p: Seq<u8>, s: int) -> Seq<u8>;

/// What blstrs gives for the pairing `e(a, b)`.
pub uninterp spec fn pairing_of(a: Seq<u8>, b: Seq<u8>) -> Seq<u8>;

/// What blstrs gives for the product of two target-group elements.
pub uninterp spec fn gt_mul_of(x: Seq<u8>, y: Seq<u8>) -> Seq<u8>;

/// What sha2 gives for the SHA-256 digest of `data`.
pub uninterp spec fn sha256_of(data: Seq<u8>) -> Seq<u8>;

/// A point of `G1`, in its 48-byte compressed encoding.
#[derive(Clone, Copy, Debug)]
pub struct G1 {
    pub bytes: [u8; 48],
}

/// A point of `G2`, in its 96-byte compressed encoding.
#[derive(Clone, Copy, Debug)]
pub struct G2 {
    pub bytes: [u8; 96],
}

/// An element of the target group, in its 576-byte encoding.
#[derive(Clone, Copy, Debug)]
pub struct Gt {
    pub bytes: [u8; 576],
}

impl View for G1 {
    type V = Seq<u8>;

    open spec fn view(&self) -> Seq<u8> {
        self.bytes@
    }
}

impl View for G2 {
    type V = Seq<u8>;

    open spec fn view(&self) -> Seq<u8> {
        self.bytes@
    }
}

impl View for Gt {
    type V = Seq<u8>;

    open spec fn view(&self) -> Seq<u8> {
        self.bytes@
    }
}

impl G1 {
    /// The fixed generator of `G1`.
    pub fn generator() -> (r: G1) {
        g1_generator()
    }

    /// The sum of two points.
    pub fn plus(&self, o: &G1) -> (r: G1)
        ensures
            r@ == g1_add_of(self@, o@),
    {
        g1_add(self, o)
    }

    /// The point times a scalar.
    pub fn times(&self, s: &Fr) -> (r: G1)
        requires
            s.wf(),
        ensures
            r@ == g1_mul_of(self@, s.value()),
    {
        g1_mul(self, s)
    }
}

impl G2 {
    /// The fixed generator of `G2`.
    pub fn generator() -> (r: G2) {
        g2_generator()
    }

    /// The sum of two points.
    pub fn plus(&self, o: &G2) -> (r: G2)
        ensures
            r@ == g2_add_of(self@, o@),
    {
        g2_add(self, o)
    }

    /// The point times a scalar.
    pub fn times(&self, s: &Fr) -> (r: G2)
        requires
            s.wf(),
        ensures
            r@ == g2_mul_of(self@, s.value()),
    {
        g2_mul(self, s)
    }
}

impl Gt {
    /// The pairing `e(a, b)`.
    pub fn pairing(a: &G1, b: &G2) -> (r: Gt)
        ensures
            r@ == pairing_of(a@, b@),
    {
        pairing(a, b)
    }

    /// The group operation of the target group.
    pub fn times(&self, o: &Gt) -> (r: Gt)
        ensures
            r@ == gt_mul_of(self@, o@),
    {
        gt_mul(self, o)
    }
}

/// Relies on blstrs `G1Affine::generator`.
#[verifier::external_body]
pub(crate) fn g1_generator() -> (r: G1) {
    G1 { bytes: blstrs::G1Affine::generator().to_compressed() }
}

/// Relies on blstrs `G2Affine::generator`.
#[verifier::external_body]
pub(crate) fn g2_generator() -> (r: G2) {
    G2 { bytes: blstrs::G2Affine::generator().to_compressed() }
}

/// Relies on blstrs `G1Projective` addition; an undecodable input is read as the identity.
#[verifier::external_body]
pub(crate) fn g1_add(a: &G1, b: &G1) -> (r: G1)
    ensures
        r@ == g1_add_of(a@, b@),
{
    let x = blstrs::G1Affine::from_compressed(&a.bytes).unwrap_or(blstrs::G1Affine::default());
    let y = blstrs::G1Affine::from_compressed(&b.bytes).unwrap_or(blstrs::G1Affine::default());
    G1 { bytes: blstrs::G1Affine::from(blstrs::G1Projective::from(x) + y).to_compressed() }
}

/// Relies on blstrs `G1Projective` scalar multiplication; an undecodable point is
/// read as the identity.
#[verifier::external_body]
pub(crate) fn g1_mul(p: &G1, s: &Fr) -> (r: G1)
    requires
        s.wf(),
    ensures
        r@ == g1_mul_of(p@, s.value()),
{
    let x = blstrs::G1Affine::from_compressed(&p.bytes).unwrap_or(blstrs::G1Affine::default());
    let k = blstrs::Scalar::from_bytes_le(&s.bytes).unwrap();
    G1 { bytes: blstrs::G1Affine::from(blstrs::G1Projective::from(x) * k).to_compressed() }
}

/// Relies on blstrs `G2Projective` addition; an undecodable input is read as the identity.
#[verifier::external_body]
pub(crate) fn g2_add(a: &G2, b: &G2) -> (r: G2)
    ensures
        r@ == g2_add_of(a@, b@),
{
    let x = blstrs::G2Affine::from_compressed(&a.bytes).unwrap_or(blstrs::G2Affine::default());
    let y = blstrs::G2Affine::from_compressed(&b.bytes).unwrap_or(blstrs::G2Affine::default());
    G2 { bytes: blstrs::G2Affine::from(blstrs::G2Projective::from(x) + y).to_compressed() }
}

/// Relies on blstrs `G2Projective` scalar multiplication; an undecodable point is
/// read as the identity.
#[verifier::external_body]
pub(crate) fn g2_mul(p: &G2, s: &Fr) -> (r: G2)
    requires
        s.wf(),
    ensures
        r@ == g2_mul_of(p@, s.value()),
{
    let x = blstrs::G2Affine::from_compressed(&p.bytes).unwrap_or(blstrs::G2Affine::default());
    let k = blstrs::Scalar::from_bytes_le(&s.bytes).unwrap();
    G2 { bytes: blstrs::G2Affine::from(blstrs::G2Projective::from(x) * k).to_compressed() }
}

/// Relies on pairing's `Engine::pairing` as blstrs implements it for `Bls12`,
/// and on bincode's encoding of `Gt`; an undecodable point is read as the identity.
#[verifier::external_body]
pub(crate) fn pairing(a: &G1, b: &G2) -> (r: Gt)
    ensures
        r@ == pairing_of(a@, b@),
{
    let x = blstrs::G1Affine::from_compressed(&a.bytes).unwrap_or(blstrs::G1Affine::default());
    let y = blstrs::G2Affine::from_compressed(&b.bytes).unwrap_or(blstrs::G2Affine::default());
    Gt { bytes: bincode::serialize(&<blstrs::Bls12 as pairing::Engine>::pairing(&x, &y)).unwrap().try_into().unwrap() }
}

/// Relies on blstrs `Gt` group operation (written additively there) and on
/// bincode's encoding of `Gt`; an undecodable input is read as the identity.
#[verifier::external_body]
pub(crate) fn gt_mul(a: &Gt, b: &Gt) -> (r: Gt)
    ensures
        r@ == gt_mul_of(a@, b@),
{
    let x: blstrs::Gt = bincode::deserialize(&a.bytes).unwrap_or(blstrs::Gt::identity());
    let y: blstrs::Gt = bincode::deserialize(&b.bytes).unwrap_or(blstrs::Gt::identity());
    Gt { bytes: bincode::serialize(&(x + y)).unwrap().try_into().unwrap() }
}

/// Relies on sha2 `Sha256::digest`: a 32-byte digest that depends on the input alone.
#[verifier::external_body]
pub(crate) fn sha256(data: &Vec<u8>) -> (r: [u8; 32])
    ensures
        r@ == sha256_of(data@),
{
    sha2::Sha256::digest(data.as_slice()).into()
}

} // verus!
