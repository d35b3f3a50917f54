//! The scalar field `Fr` of BLS12-381, held as its canonical little-endian
//! representation and modelled as an integer modulo the group order.

use vstd::prelude::*;
use vstd::arithmetic::power::pow;
use vstd::arithmetic::div_mod::*;

verus! {

/// The order of the prime-order subgroups of BLS12-381.
pub open spec fn modulus() -> int {
    let w: int = 0x10000000000000000;
    0xffffffff00000001 + w * (0x53bda402fffe5bfe + w * (0x3339d80809a1d805 + w
        * 0x73eda753299d7d48))
}

/// The integer that a little-endian byte sequence denotes.
pub open spec fn le_value(s: Seq<u8>) -> int
    decreases s.len(),
{
    if s.len() == 0 {
        0
    } else {
        s[0] + 256 * le_value(s.subrange(1, s.len() as int))
    }
}

/// The integer that a big-endian byte sequence denotes.
pub open spec fn be_value(s: Seq<u8>) -> int
    decreases s.len(),
{
    if s.len() == 0 {
        0
    } else {
        be_value(s.drop_last()) * 256 + s.last()
    }
}

pub open spec fn fadd(a: int, b: int) -> int {
    (a + b) % modulus()
}

pub open spec fn fsub(a: int, b: int) -> int {
    (a - b) % modulus()
}

pub open spec fn fmul(a: int, b: int) -> int {
    (a * b) % modulus()
}

/// `b` raised to `e` in the field.
pub open spec fn fpow(b: int, e: nat) -> int {
    pow(b, e) % modulus()
}

/// An element of `Fr`: the 32 little-endian bytes of its canonical representative.
#[derive(Clone, Copy, Debug, PartialEq, Eq)]
pub struct Fr {
    pub bytes: [u8; 32],
}

impl Fr {
    pub open spec fn value(&self) -> int {
        le_value(self.bytes@)
    }

    /// The representation is canonical: it denotes an integer below the modulus.
    pub open spec fn wf(&self) -> bool {
        self.value() < modulus()
    }
}

impl Fr {
    /// The field element with value `x`.
    pub fn from_u64(x: u64) -> (r: Fr)
        ensures
            r.wf(),
            r.value() == x as int,
    {
        fr_from_u64(x)
    }

    /// The element that a 32-byte little-endian representation denotes, if it is canonical.
    pub fn from_repr(repr: &[u8; 32]) -> (r: Option<Fr>)
        ensures
            r.is_some() <==> le_value(repr@) < modulus(),
            r.is_some() ==> r.unwrap().bytes@ == repr@,
    {
        fr_from_repr(repr)
    }

    /// `self + o` in the field.
    pub fn plus(&self, o: &Fr) -> (r: Fr)
        requires
            self.wf(),
            o.wf(),
        ensures
            r.wf(),
            r.value() == fadd(self.value(), o.value()),
    {
        fr_add(self, o)
    }

    /// `self - o` in the field.
    pub fn minus(&self, o: &Fr) -> (r: Fr)
        requires
            self.wf(),
            o.wf(),
        ensures
            r.wf(),
            r.value() == fsub(self.value(), o.value()),
    {
        fr_sub(self, o)
    }

    /// `self * o` in the field.
    pub fn times(&self, o: &Fr) -> (r: Fr)
        requires
            self.wf(),
            o.wf(),
        ensures
            r.wf(),
            r.value() == fmul(self.value(), o.value()),
    {
        fr_mul(self, o)
    }

    /// The multiplicative inverse; none for zero.
    pub fn inverse(&self) -> (r: Option<Fr>)
        requires
            self.wf(),
        ensures
            r.is_some() <==> self.value() != 0,
            r.is_some() ==> r.unwrap().wf() && fmul(self.value(), r.unwrap().value()) == 1,
    {
        fr_inverse(self)
    }
}

/// Relies on blstrs `Scalar::from_bytes_le`, which accepts exactly the canonical
/// encodings, and `Scalar::to_bytes_le`, which gives the canonical encoding back.
#[verifier::external_body]
pub(crate) fn fr_from_repr(repr: &[u8; 32]) -> (r: Option<Fr>)
    ensures
        r.is_some() <==> le_value(repr@) < modulus(),
        r.is_some() ==> r.unwrap().bytes@ == repr@,
{
    let s: Option<blstrs::Scalar> = blstrs::Scalar::from_bytes_le(repr).into();
    s.map(|s| Fr { bytes: s.to_bytes_le() })
}


/// Relies on blstrs `Scalar: From<u64>`, which embeds the integer.
#[verifier::external_body]
pub(crate) fn fr_from_u64(x: u64) -> (r: Fr)
    ensures
        r.wf(),
        r.value() == x as int,
{
    Fr { bytes: blstrs::Scalar::from(x).to_bytes_le() }
}

/// Relies on blstrs `Scalar` addition, which is addition modulo the group order.
#[verifier::external_body]
pub(crate) fn fr_add(a: &Fr, b: &Fr) -> (r: Fr)
    requires
        a.wf(),
        b.wf(),
    ensures
        r.wf(),
        r.value() == fadd(a.value(), b.value()),
{
    let x = blstrs::Scalar::from_bytes_le(&a.bytes).unwrap();
    let y = blstrs::Scalar::from_bytes_le(&b.bytes).unwrap();
    Fr { bytes: (x + y).to_bytes_le() }
}

/// Relies on blstrs `Scalar` subtraction, which is subtraction modulo the group order.
#[verifier::external_body]
pub(crate) fn fr_sub(a: &Fr, b: &Fr) -> (r: Fr)
    requires
        a.wf(),
        b.wf(),
    ensures
        r.wf(),
        r.value() == fsub(a.value(), b.value()),
{
    let x = blstrs::Scalar::from_bytes_le(&a.bytes).unwrap();
    let y = blstrs::Scalar::from_bytes_le(&b.bytes).unwrap();
    Fr { bytes: (x - y).to_bytes_le() }
}

/// Relies on blstrs `Scalar` multiplication, which is multiplication modulo the group order.
#[verifier::external_body]
pub(crate) fn fr_mul(a: &Fr, b: &Fr) -> (r: Fr)
    requires
        a.wf(),
        b.wf(),
    ensures
        r.wf(),
        r.value() == fmul(a.value(), b.value()),
{
    let x = blstrs::Scalar::from_bytes_le(&a.bytes).unwrap();
    let y = blstrs::Scalar::from_bytes_le(&b.bytes).unwrap();
    Fr { bytes: (x * y).to_bytes_le() }
}

/// Relies on ff `Field::invert` for blstrs `Scalar`: no inverse for zero, the
/// multiplicative inverse otherwise.
#[verifier::external_body]
pub(crate) fn fr_inverse(a: &Fr) -> (r: Option<Fr>)
    requires
        a.wf(),
    ensures
        r.is_some() <==> a.value() != 0,
        r.is_some() ==> r.unwrap().wf() && fmul(a.value(), r.unwrap().value()) == 1,
{
    let x = blstrs::Scalar::from_bytes_le(&a.bytes).unwrap();
    let i: Option<blstrs::Scalar> = ff::Field::invert(&x).into();
    i.map(|i| Fr { bytes: i.to_bytes_le() })
}

pub proof fn lemma_le_value_bound(s: Seq<u8>)
    ensures
        0 <= le_value(s) < pow(256, s.len()),
    decreases s.len(),
{
    reveal(pow);
    if s.len() > 0 {
        lemma_le_value_bound(s.subrange(1, s.len() as int));
        assert(pow(256, s.len()) == 256 * pow(256, (s.len() - 1) as nat));
    }
}

pub proof fn lemma_be_value_bound(s: Seq<u8>)
    ensures
        0 <= be_value(s) < pow(256, s.len()),
    decreases s.len(),
{
    reveal(pow);
    if s.len() > 0 {
        lemma_be_value_bound(s.drop_last());
        assert(pow(256, s.len()) == 256 * pow(256, (s.len() - 1) as nat));
    }
}

/// Trailing zero bytes do not change a little-endian value, and reversing a
/// big-endian sequence gives the little-endian one of the same integer.
proof fn lemma_le_of_reversed(s: Seq<u8>, pad: Seq<u8>)
    requires
        forall|i: int| 0 <= i < pad.len() ==> pad[i] == 0u8,
    ensures
        le_value(s.reverse() + pad) == be_value(s),
    decreases s.len() + pad.len(),
{
    if s.len() == 0 {
        assert(s.reverse() + pad =~= pad);
        if pad.len() > 0 {
            let rest = pad.subrange(1, pad.len() as int);
            assert(pad.subrange(1, pad.len() as int) =~= Seq::<u8>::empty().reverse() + rest);
            lemma_le_of_reversed(Seq::empty(), rest);
            assert(Seq::<u8>::empty().reverse() + rest =~= rest);
        }
    } else {
        let t = s.drop_last();
        let whole = s.reverse() + pad;
        assert(whole[0] == s.last());
        assert(whole.subrange(1, whole.len() as int) =~= t.reverse() + pad);
        lemma_le_of_reversed(t, pad);
    }
}

/// Reads the first 16 bytes as a big-endian 128-bit integer, its lower 64 bits
/// in limb 0 and its upper 64 bits in limb 1 of an `Fr` representation.
pub fn fr_from_u128(bytes: &[u8]) -> (r: Fr)
    requires
        bytes@.len() >= 16,
    ensures
        r.wf(),
        r.value() == be_value(bytes@.subrange(0, 16)),
{
    let mut repr: [u8; 32] = [0u8; 32];
    let mut i: usize = 0;
    while i < 16
        invariant
            0 <= i <= 16,
            bytes@.len() >= 16,
            forall|j: int| 0 <= j < i ==> repr@[j] == bytes@[15 - j],
            forall|j: int| i <= j < 32 ==> repr@[j] == 0u8,
        decreases 16 - i,
    {
        repr[i] = bytes[15 - i];
        i = i + 1;
    }
    let ghost head = bytes@.subrange(0, 16);
    let ghost pad = repr@.subrange(16, 32);
    proof {
        assert(repr@ =~= head.reverse() + pad);
        lemma_le_of_reversed(head, pad);
        lemma_be_value_bound(head);
        reveal_with_fuel(pow, 17);
        let w: int = 0x10000000000000000;
        assert(pow(256, 16) == w * w);
    }
    match fr_from_repr(&repr) {
        Some(f) => f,
        None => Fr { bytes: repr },
    }
}

/// `[1, r, r^2, ..., r^(n-1)]`.
pub fn structured_scalar_power(n: usize, r: &Fr) -> (v: Vec<Fr>)
    requires
        r.wf(),
    ensures
        v@.len() == n,
        forall|i: int| 0 <= i < n ==> v@[i].wf() && #[trigger] v@[i].value() == fpow(r.value(), i as nat),
{
    let mut v: Vec<Fr> = Vec::new();
    if n == 0 {
        return v;
    }
    let mut cur = fr_from_u64(1);
    proof {
        reveal(pow);
        lemma_small_mod(1, modulus() as nat);
    }
    while v.len() < n
        invariant
            v@.len() <= n,
            r.wf(),
            cur.wf(),
            cur.value() == fpow(r.value(), v@.len() as nat),
            forall|i: int| 0 <= i < v@.len() ==> v@[i].wf() && #[trigger] v@[i].value() == fpow(r.value(), i as nat),
        decreases n - v@.len(),
    {
        v.push(cur);
        let next = fr_mul(&cur, r);
        proof {
            let k = (v@.len() - 1) as nat;
            reveal(pow);
            assert(pow(r.value(), k + 1) == r.value() * pow(r.value(), k));
            lemma_mul_mod_noop_left(pow(r.value(), k), r.value(), modulus());
            assert(pow(r.value(), k) * r.value() == r.value() * pow(r.value(), k)) by (nonlinear_arith);
        }
        cur = next;
    }
    v
}

} // verus!
