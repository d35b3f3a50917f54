//! The byte encoding of an aggregate proof: the commitments and products, the
//! TIPP rounds in order, the TIPP finals and openings, the MIPP rounds, the
//! MIPP finals and opening, each element in its fixed-size encoding.

use vstd::prelude::*;
use crate::field::Fr;
use crate::group::{G1, G2, Gt};
use crate::gipa::{GipaTipp, GipaMipp};
use crate::prove::{AggregateProof, TippProof, MippProof};
use crate::transcript::append_bytes;

verus! {

/// The bytes of one TIPP round: `C_L`, `C_R`, `Z_L`, `Z_R`.
pub open spec fn tipp_round_bytes(c: ((Gt, Gt), (Gt, Gt)), z: (Gt, Gt)) -> Seq<u8> {
    c.0.0@ + c.0.1@ + c.1.0@ + c.1.1@ + z.0@ + z.1@
}

/// The bytes of one MIPP round: `T_L`, `T_R`, `Z_L`, `Z_R`.
pub open spec fn mipp_round_bytes(c: (Gt, Gt), z: (G1, G1)) -> Seq<u8> {
    c.0@ + c.1@ + z.0@ + z.1@
}

/// The bytes of the first `k` TIPP rounds.
pub open spec fn tipp_rounds_bytes(cs: Seq<((Gt, Gt), (Gt, Gt))>, zs: Seq<(Gt, Gt)>, k: nat) -> Seq<u8>
    decreases k,
{
    if k == 0 {
        Seq::empty()
    } else {
        tipp_rounds_bytes(cs, zs, (k - 1) as nat) + tipp_round_bytes(cs[k - 1], zs[k - 1])
    }
}

/// The bytes of the first `k` MIPP rounds.
pub open spec fn mipp_rounds_bytes(cs: Seq<(Gt, Gt)>, zs: Seq<(G1, G1)>, k: nat) -> Seq<u8>
    decreases k,
{
    if k == 0 {
        Seq::empty()
    } else {
        mipp_rounds_bytes(cs, zs, (k - 1) as nat) + mipp_round_bytes(cs[k - 1], zs[k - 1])
    }
}

pub open spec fn header_bytes(p: AggregateProof) -> Seq<u8> {
    p.com_ab.0@ + p.com_ab.1@ + p.com_c@ + p.ip_ab@ + p.agg_c@
}

pub open spec fn tipp_tail_bytes(t: TippProof) -> Seq<u8> {
    t.gipa.final_a@ + t.gipa.final_b@ + t.gipa.final_vkey@ + t.gipa.final_wkey@
        + t.vkey_opening.0@ + t.vkey_opening.1@ + t.wkey_opening.0@ + t.wkey_opening.1@
}

pub open spec fn mipp_tail_bytes(m: MippProof) -> Seq<u8> {
    m.gipa.final_c@ + m.gipa.final_r.bytes@ + m.gipa.final_vkey@ + m.vkey_opening.0@ + m.vkey_opening.1@
}

/// The encoding of an aggregate proof.
pub open spec fn encode(p: AggregateProof) -> Seq<u8> {
    header_bytes(p)
        + tipp_rounds_bytes(p.proof_ab.gipa.comms@, p.proof_ab.gipa.z_vec@, p.proof_ab.gipa.comms@.len())
        + tipp_tail_bytes(p.proof_ab)
        + mipp_rounds_bytes(p.proof_c.gipa.comms@, p.proof_c.gipa.z_vec@, p.proof_c.gipa.comms@.len())
        + mipp_tail_bytes(p.proof_c)
}

/// Every record of the proof has `l` rounds.
pub open spec fn rounds_are(p: AggregateProof, l: nat) -> bool {
    &&& p.proof_ab.gipa.comms@.len() == l && p.proof_ab.gipa.z_vec@.len() == l
    &&& p.proof_c.gipa.comms@.len() == l && p.proof_c.gipa.z_vec@.len() == l
}

pub const FIXED_LEN: usize = 3296;

pub const ROUND_LEN: usize = 4704;

/// The encoding of a proof of `l` rounds has `FIXED_LEN + l * ROUND_LEN` bytes.
pub proof fn lemma_encode_len(p: AggregateProof, l: nat)
    requires
        rounds_are(p, l),
    ensures
        encode(p).len() == FIXED_LEN + l * ROUND_LEN,
{
    lemma_rounds_len(p, l);
}

proof fn lemma_rounds_len(p: AggregateProof, k: nat)
    requires
        k <= p.proof_ab.gipa.comms@.len() && k <= p.proof_ab.gipa.z_vec@.len(),
        k <= p.proof_c.gipa.comms@.len() && k <= p.proof_c.gipa.z_vec@.len(),
    ensures
        tipp_rounds_bytes(p.proof_ab.gipa.comms@, p.proof_ab.gipa.z_vec@, k).len() == k * 3456,
        mipp_rounds_bytes(p.proof_c.gipa.comms@, p.proof_c.gipa.z_vec@, k).len() == k * 1248,
    decreases k,
{
    if k > 0 {
        lemma_rounds_len(p, (k - 1) as nat);
    }
}

/// `x1 + y1 == x2 + y2` with `y1`, `y2` of one length splits into two equalities.
proof fn lemma_split(x1: Seq<u8>, y1: Seq<u8>, x2: Seq<u8>, y2: Seq<u8>)
    requires
        x1 + y1 == x2 + y2,
        y1.len() == y2.len(),
    ensures
        x1 == x2,
        y1 == y2,
{
    let s = x1 + y1;
    assert(x1 =~= s.subrange(0, x1.len() as int));
    assert(x2 =~= (x2 + y2).subrange(0, x2.len() as int));
    assert(y1 =~= s.subrange(x1.len() as int, s.len() as int));
    assert(y2 =~= (x2 + y2).subrange(x2.len() as int, s.len() as int));
}

proof fn lemma_tipp_rounds_injective(c1: Seq<((Gt, Gt), (Gt, Gt))>, z1: Seq<(Gt, Gt)>,
    c2: Seq<((Gt, Gt), (Gt, Gt))>, z2: Seq<(Gt, Gt)>, k: nat)
    requires
        tipp_rounds_bytes(c1, z1, k) == tipp_rounds_bytes(c2, z2, k),
        k <= c1.len() && k <= z1.len() && k <= c2.len() && k <= z2.len(),
    ensures
        forall|i: int| 0 <= i < k ==> {
            &&& (#[trigger] c1[i]).0.0@ == c2[i].0.0@ && c1[i].0.1@ == c2[i].0.1@
            &&& c1[i].1.0@ == c2[i].1.0@ && c1[i].1.1@ == c2[i].1.1@
            &&& z1[i].0@ == z2[i].0@ && z1[i].1@ == z2[i].1@
        },
    decreases k,
{
    if k > 0 {
        let j = k - 1;
        lemma_split(tipp_rounds_bytes(c1, z1, (k - 1) as nat), tipp_round_bytes(c1[j], z1[j]),
            tipp_rounds_bytes(c2, z2, (k - 1) as nat), tipp_round_bytes(c2[j], z2[j]));
        lemma_tipp_rounds_injective(c1, z1, c2, z2, (k - 1) as nat);
        let (a, b) = (c1[j], c2[j]);
        let (x, y) = (z1[j], z2[j]);
        lemma_split(a.0.0@ + a.0.1@ + a.1.0@ + a.1.1@ + x.0@, x.1@, b.0.0@ + b.0.1@ + b.1.0@ + b.1.1@ + y.0@, y.1@);
        lemma_split(a.0.0@ + a.0.1@ + a.1.0@ + a.1.1@, x.0@, b.0.0@ + b.0.1@ + b.1.0@ + b.1.1@, y.0@);
        lemma_split(a.0.0@ + a.0.1@ + a.1.0@, a.1.1@, b.0.0@ + b.0.1@ + b.1.0@, b.1.1@);
        lemma_split(a.0.0@ + a.0.1@, a.1.0@, b.0.0@ + b.0.1@, b.1.0@);
        lemma_split(a.0.0@, a.0.1@, b.0.0@, b.0.1@);
    }
}

proof fn lemma_mipp_rounds_injective(c1: Seq<(Gt, Gt)>, z1: Seq<(G1, G1)>,
    c2: Seq<(Gt, Gt)>, z2: Seq<(G1, G1)>, k: nat)
    requires
        mipp_rounds_bytes(c1, z1, k) == mipp_rounds_bytes(c2, z2, k),
        k <= c1.len() && k <= z1.len() && k <= c2.len() && k <= z2.len(),
    ensures
        forall|i: int| 0 <= i < k ==> {
            &&& (#[trigger] c1[i]).0@ == c2[i].0@ && c1[i].1@ == c2[i].1@
            &&& z1[i].0@ == z2[i].0@ && z1[i].1@ == z2[i].1@
        },
    decreases k,
{
    if k > 0 {
        let j = k - 1;
        lemma_split(mipp_rounds_bytes(c1, z1, (k - 1) as nat), mipp_round_bytes(c1[j], z1[j]),
            mipp_rounds_bytes(c2, z2, (k - 1) as nat), mipp_round_bytes(c2[j], z2[j]));
        lemma_mipp_rounds_injective(c1, z1, c2, z2, (k - 1) as nat);
        let (a, b) = (c1[j], c2[j]);
        let (x, y) = (z1[j], z2[j]);
        lemma_split(a.0@ + a.1@ + x.0@, x.1@, b.0@ + b.1@ + y.0@, y.1@);
        lemma_split(a.0@ + a.1@, x.0@, b.0@ + b.1@, y.0@);
        lemma_split(a.0@, a.1@, b.0@, b.1@);
        assert(c1[j].0@ == c2[j].0@ && c1[j].1@ == c2[j].1@);
        assert(z1[j].0@ == z2[j].0@);
        assert(z1[j].1@ == z2[j].1@);
        assert forall|i: int| 0 <= i < k implies {
            &&& (#[trigger] c1[i]).0@ == c2[i].0@ && c1[i].1@ == c2[i].1@
            &&& z1[i].0@ == z2[i].0@ && z1[i].1@ == z2[i].1@
        } by {
            if i < j {
                assert(c1[i].0@ == c2[i].0@);
            }
        }
    }
}


fn take_g1(b: &Vec<u8>, pos: &mut usize) -> (r: G1)
    requires
        *old(pos) + 48 <= b@.len(),
    ensures
        *final(pos) == *old(pos) + 48,
        r.bytes@ == b@.subrange(*old(pos) as int, *final(pos) as int),
{
    let start = *pos;
    let blen = b.len();
    let mut a = [0u8; 48];
    let mut i: usize = 0;
    while i < 48
        invariant
            start + 48 <= b@.len(),
            blen == b@.len(),
            i <= 48,
            forall|j: int| 0 <= j < i ==> a@[j] == b@[start + j],
        decreases 48 - i,
    {
        a[i] = b[start + i];
        i = i + 1;
    }
    proof {
        assert(a@ =~= b@.subrange(start as int, start + 48));
    }
    *pos = start + 48;
    G1 { bytes: a }
}

fn take_g2(b: &Vec<u8>, pos: &mut usize) -> (r: G2)
    requires
        *old(pos) + 96 <= b@.len(),
    ensures
        *final(pos) == *old(pos) + 96,
        r.bytes@ == b@.subrange(*old(pos) as int, *final(pos) as int),
{
    let start = *pos;
    let blen = b.len();
    let mut a = [0u8; 96];
    let mut i: usize = 0;
    while i < 96
        invariant
            start + 96 <= b@.len(),
            blen == b@.len(),
            i <= 96,
            forall|j: int| 0 <= j < i ==> a@[j] == b@[start + j],
        decreases 96 - i,
    {
        a[i] = b[start + i];
        i = i + 1;
    }
    proof {
        assert(a@ =~= b@.subrange(start as int, start + 96));
    }
    *pos = start + 96;
    G2 { bytes: a }
}

fn take_gt(b: &Vec<u8>, pos: &mut usize) -> (r: Gt)
    requires
        *old(pos) + 576 <= b@.len(),
    ensures
        *final(pos) == *old(pos) + 576,
        r.bytes@ == b@.subrange(*old(pos) as int, *final(pos) as int),
{
    let start = *pos;
    let blen = b.len();
    let mut a = [0u8; 576];
    let mut i: usize = 0;
    while i < 576
        invariant
            start + 576 <= b@.len(),
            blen == b@.len(),
            i <= 576,
            forall|j: int| 0 <= j < i ==> a@[j] == b@[start + j],
        decreases 576 - i,
    {
        a[i] = b[start + i];
        i = i + 1;
    }
    proof {
        assert(a@ =~= b@.subrange(start as int, start + 576));
    }
    *pos = start + 576;
    Gt { bytes: a }
}

fn take_fr(b: &Vec<u8>, pos: &mut usize) -> (r: Fr)
    requires
        *old(pos) + 32 <= b@.len(),
    ensures
        *final(pos) == *old(pos) + 32,
        r.bytes@ == b@.subrange(*old(pos) as int, *final(pos) as int),
{
    let start = *pos;
    let blen = b.len();
    let mut a = [0u8; 32];
    let mut i: usize = 0;
    while i < 32
        invariant
            start + 32 <= b@.len(),
            blen == b@.len(),
            i <= 32,
            forall|j: int| 0 <= j < i ==> a@[j] == b@[start + j],
        decreases 32 - i,
    {
        a[i] = b[start + i];
        i = i + 1;
    }
    proof {
        assert(a@ =~= b@.subrange(start as int, start + 32));
    }
    *pos = start + 32;
    Fr { bytes: a }
}

proof fn lemma_extend(b: Seq<u8>, p: int, q: int)
    requires
        0 <= p <= q <= b.len(),
    ensures
        b.subrange(0, p) + b.subrange(p, q) == b.subrange(0, q),
{
    assert(b.subrange(0, p) + b.subrange(p, q) =~= b.subrange(0, q));
}

/// The encoding of `p`.
pub fn to_bytes(p: &AggregateProof) -> (r: Vec<u8>)
    requires
        p.proof_ab.gipa.z_vec@.len() == p.proof_ab.gipa.comms@.len(),
        p.proof_c.gipa.z_vec@.len() == p.proof_c.gipa.comms@.len(),
    ensures
        r@ == encode(*p),
{
    let mut out: Vec<u8> = Vec::new();
    append_bytes(&mut out, p.com_ab.0.bytes.as_slice());
    append_bytes(&mut out, p.com_ab.1.bytes.as_slice());
    append_bytes(&mut out, p.com_c.bytes.as_slice());
    append_bytes(&mut out, p.ip_ab.bytes.as_slice());
    append_bytes(&mut out, p.agg_c.bytes.as_slice());
    let ghost h = out@;
    proof {
        assert(h =~= header_bytes(*p));
    }
    let t = &p.proof_ab;
    let mut i: usize = 0;
    while i < t.gipa.comms.len()
        invariant
            i <= t.gipa.comms@.len(),
            t.gipa.z_vec@.len() == t.gipa.comms@.len(),
            out@ == h + tipp_rounds_bytes(t.gipa.comms@, t.gipa.z_vec@, i as nat),
        decreases t.gipa.comms@.len() - i,
    {
        let (cl, cr) = t.gipa.comms[i];
        let (zl, zr) = t.gipa.z_vec[i];
        let ghost before = out@;
        append_bytes(&mut out, cl.0.bytes.as_slice());
        append_bytes(&mut out, cl.1.bytes.as_slice());
        append_bytes(&mut out, cr.0.bytes.as_slice());
        append_bytes(&mut out, cr.1.bytes.as_slice());
        append_bytes(&mut out, zl.bytes.as_slice());
        append_bytes(&mut out, zr.bytes.as_slice());
        proof {
            assert(out@ =~= before + tipp_round_bytes(t.gipa.comms@[i as int], t.gipa.z_vec@[i as int]));
            assert(tipp_rounds_bytes(t.gipa.comms@, t.gipa.z_vec@, (i + 1) as nat)
                == tipp_rounds_bytes(t.gipa.comms@, t.gipa.z_vec@, i as nat)
                + tipp_round_bytes(t.gipa.comms@[i as int], t.gipa.z_vec@[i as int]));
            assert(out@ =~= h + tipp_rounds_bytes(t.gipa.comms@, t.gipa.z_vec@, (i + 1) as nat));
        }
        i = i + 1;
    }
    let ghost h2 = out@;
    append_bytes(&mut out, t.gipa.final_a.bytes.as_slice());
    append_bytes(&mut out, t.gipa.final_b.bytes.as_slice());
    append_bytes(&mut out, t.gipa.final_vkey.bytes.as_slice());
    append_bytes(&mut out, t.gipa.final_wkey.bytes.as_slice());
    append_bytes(&mut out, t.vkey_opening.0.bytes.as_slice());
    append_bytes(&mut out, t.vkey_opening.1.bytes.as_slice());
    append_bytes(&mut out, t.wkey_opening.0.bytes.as_slice());
    append_bytes(&mut out, t.wkey_opening.1.bytes.as_slice());
    let ghost h3 = out@;
    proof {
        assert(h3 =~= h2 + tipp_tail_bytes(*t));
    }
    let m = &p.proof_c;
    let mut k: usize = 0;
    while k < m.gipa.comms.len()
        invariant
            k <= m.gipa.comms@.len(),
            m.gipa.z_vec@.len() == m.gipa.comms@.len(),
            out@ == h3 + mipp_rounds_bytes(m.gipa.comms@, m.gipa.z_vec@, k as nat),
        decreases m.gipa.comms@.len() - k,
    {
        let c = m.gipa.comms[k];
        let (zl, zr) = m.gipa.z_vec[k];
        let ghost before = out@;
        append_bytes(&mut out, c.0.bytes.as_slice());
        append_bytes(&mut out, c.1.bytes.as_slice());
        append_bytes(&mut out, zl.bytes.as_slice());
        append_bytes(&mut out, zr.bytes.as_slice());
        proof {
            assert(out@ =~= before + mipp_round_bytes(m.gipa.comms@[k as int], m.gipa.z_vec@[k as int]));
            assert(mipp_rounds_bytes(m.gipa.comms@, m.gipa.z_vec@, (k + 1) as nat)
                == mipp_rounds_bytes(m.gipa.comms@, m.gipa.z_vec@, k as nat)
                + mipp_round_bytes(m.gipa.comms@[k as int], m.gipa.z_vec@[k as int]));
            assert(out@ =~= h3 + mipp_rounds_bytes(m.gipa.comms@, m.gipa.z_vec@, (k + 1) as nat));
        }
        k = k + 1;
    }
    let ghost h4 = out@;
    append_bytes(&mut out, m.gipa.final_c.bytes.as_slice());
    append_bytes(&mut out, m.gipa.final_r.bytes.as_slice());
    append_bytes(&mut out, m.gipa.final_vkey.bytes.as_slice());
    append_bytes(&mut out, m.vkey_opening.0.bytes.as_slice());
    append_bytes(&mut out, m.vkey_opening.1.bytes.as_slice());
    proof {
        assert(out@ =~= h4 + mipp_tail_bytes(*m));
        assert(out@ =~= encode(*p));
    }
    out
}


/// Reads an aggregate proof back from its encoding: the number of rounds
/// follows from the length, and any length of that form is read.
pub fn from_bytes(b: &Vec<u8>) -> (r: Option<AggregateProof>)
    ensures
        r.is_some() <==> (b@.len() >= FIXED_LEN && (b@.len() - FIXED_LEN) % (ROUND_LEN as int) == 0),
        r.is_some() ==> encode(r.unwrap()) == b@
            && rounds_are(r.unwrap(), ((b@.len() - FIXED_LEN) / (ROUND_LEN as int)) as nat),
{
    let len = b.len();
    if len < FIXED_LEN || (len - FIXED_LEN) % ROUND_LEN != 0 {
        return None;
    }
    let l = (len - FIXED_LEN) / ROUND_LEN;
    proof {
        assert(len == 3296 + l * 4704);
    }
    let mut pos: usize = 0;
    let c0 = take_gt(b, &mut pos);
    let c1 = take_gt(b, &mut pos);
    let cc = take_gt(b, &mut pos);
    let ip = take_gt(b, &mut pos);
    let agg = take_g1(b, &mut pos);
    let ghost h = c0@ + c1@ + cc@ + ip@ + agg@;
    proof {
        assert(b@.subrange(0, pos as int) =~= h);
    }
    let mut comms: Vec<((Gt, Gt), (Gt, Gt))> = Vec::new();
    let mut zs: Vec<(Gt, Gt)> = Vec::new();
    let mut i: usize = 0;
    while i < l
        invariant
            len == b@.len(),
            len == 3296 + l * 4704,
            i <= l,
            pos == 2352 + i * 3456,
            comms@.len() == i && zs@.len() == i,
            b@.subrange(0, pos as int) == h + tipp_rounds_bytes(comms@, zs@, i as nat),
        decreases l - i,
    {
        proof {
            assert(pos + 3456 <= len) by (nonlinear_arith)
                requires i < l, pos == 2352 + i * 3456, len == 3296 + l * 4704;
        }
        let ghost start = pos as int;
        let a0 = take_gt(b, &mut pos);
        let a1 = take_gt(b, &mut pos);
        let a2 = take_gt(b, &mut pos);
        let a3 = take_gt(b, &mut pos);
        let z0 = take_gt(b, &mut pos);
        let z1 = take_gt(b, &mut pos);
        let ghost old_c = comms@;
        let ghost old_z = zs@;
        comms.push(((a0, a1), (a2, a3)));
        zs.push((z0, z1));
        proof {
            assert(b@.subrange(0, pos as int) =~= b@.subrange(0, start) + tipp_round_bytes(((a0, a1), (a2, a3)), (z0, z1)));
            assert(tipp_rounds_bytes(old_c, old_z, i as nat) == tipp_rounds_bytes(comms@, zs@, i as nat)) by {
                lemma_tipp_prefix(old_c, old_z, comms@, zs@, i as nat);
            }
            assert(pos == 2352 + (i + 1) * 3456) by (nonlinear_arith)
                requires pos == start + 3456, start == 2352 + i * 3456;
        }
        i = i + 1;
    }
    proof {
        assert(pos == 2352 + l * 3456);
        assert(pos + 944 + l * 1248 == len) by (nonlinear_arith)
            requires pos == 2352 + l * 3456, len == 3296 + l * 4704;
    }
    let ghost h2 = b@.subrange(0, pos as int);
    let fa = take_g1(b, &mut pos);
    let fb = take_g2(b, &mut pos);
    let fv = take_g2(b, &mut pos);
    let fw = take_g1(b, &mut pos);
    let va = take_g2(b, &mut pos);
    let vb = take_g2(b, &mut pos);
    let wa = take_g1(b, &mut pos);
    let wb = take_g1(b, &mut pos);
    let proof_ab = TippProof {
        gipa: GipaTipp { comms, z_vec: zs, final_a: fa, final_b: fb, final_vkey: fv, final_wkey: fw },
        vkey_opening: (va, vb),
        wkey_opening: (wa, wb),
    };
    let ghost h3 = b@.subrange(0, pos as int);
    proof {
        assert(h3 =~= h2 + tipp_tail_bytes(proof_ab));
    }
    proof {
        assert(pos == 2928 + l * 3456 + 0 * 1248);
    }
    let mut mcomms: Vec<(Gt, Gt)> = Vec::new();
    let mut mzs: Vec<(G1, G1)> = Vec::new();
    let mut k: usize = 0;
    while k < l
        invariant
            len == b@.len(),
            len == 3296 + l * 4704,
            k <= l,
            pos == 2928 + l * 3456 + k * 1248,
            mcomms@.len() == k && mzs@.len() == k,
            b@.subrange(0, pos as int) == h3 + mipp_rounds_bytes(mcomms@, mzs@, k as nat),
        decreases l - k,
    {
        proof {
            assert(pos + 1248 <= len) by (nonlinear_arith)
                requires k < l, pos == 2928 + l * 3456 + k * 1248, len == 3296 + l * 4704;
        }
        let ghost start = pos as int;
        let t0 = take_gt(b, &mut pos);
        let t1 = take_gt(b, &mut pos);
        let z0 = take_g1(b, &mut pos);
        let z1 = take_g1(b, &mut pos);
        let ghost old_c = mcomms@;
        let ghost old_z = mzs@;
        mcomms.push((t0, t1));
        mzs.push((z0, z1));
        proof {
            assert(b@.subrange(0, pos as int) =~= b@.subrange(0, start) + mipp_round_bytes((t0, t1), (z0, z1)));
            assert(mipp_rounds_bytes(old_c, old_z, k as nat) == mipp_rounds_bytes(mcomms@, mzs@, k as nat)) by {
                lemma_mipp_prefix(old_c, old_z, mcomms@, mzs@, k as nat);
            }
            assert(pos == 2928 + l * 3456 + (k + 1) * 1248) by (nonlinear_arith)
                requires pos == start + 1248, start == 2928 + l * 3456 + k * 1248;
        }
        k = k + 1;
    }
    proof {
        assert(pos == 2928 + l * 3456 + l * 1248);
        assert(pos + 176 + 192 == len) by (nonlinear_arith)
            requires pos == 2928 + l * 3456 + l * 1248, len == 3296 + l * 4704;
    }
    let ghost h4 = b@.subrange(0, pos as int);
    let fc = take_g1(b, &mut pos);
    let fr = take_fr(b, &mut pos);
    let mv = take_g2(b, &mut pos);
    let oa = take_g2(b, &mut pos);
    let ob = take_g2(b, &mut pos);
    let proof_c = MippProof {
        gipa: GipaMipp { comms: mcomms, z_vec: mzs, final_c: fc, final_r: fr, final_vkey: mv },
        vkey_opening: (oa, ob),
    };
    let p = AggregateProof { com_ab: (c0, c1), com_c: cc, ip_ab: ip, agg_c: agg, proof_ab, proof_c };
    proof {
        assert(b@.subrange(0, pos as int) =~= h4 + mipp_tail_bytes(p.proof_c));
        assert(b@.subrange(0, len as int) =~= b@);
        assert(header_bytes(p) == h);
        assert(encode(p) =~= b@);
    }
    Some(p)
}

proof fn lemma_tipp_prefix(c1: Seq<((Gt, Gt), (Gt, Gt))>, z1: Seq<(Gt, Gt)>,
    c2: Seq<((Gt, Gt), (Gt, Gt))>, z2: Seq<(Gt, Gt)>, k: nat)
    requires
        k <= c1.len() && k <= z1.len() && k <= c2.len() && k <= z2.len(),
        forall|i: int| 0 <= i < k ==> c1[i] == c2[i] && z1[i] == z2[i],
    ensures
        tipp_rounds_bytes(c1, z1, k) == tipp_rounds_bytes(c2, z2, k),
    decreases k,
{
    if k > 0 {
        lemma_tipp_prefix(c1, z1, c2, z2, (k - 1) as nat);
        assert(c1[k - 1] == c2[k - 1] && z1[k - 1] == z2[k - 1]);
    }
}

proof fn lemma_mipp_prefix(c1: Seq<(Gt, Gt)>, z1: Seq<(G1, G1)>, c2: Seq<(Gt, Gt)>, z2: Seq<(G1, G1)>, k: nat)
    requires
        k <= c1.len() && k <= z1.len() && k <= c2.len() && k <= z2.len(),
        forall|i: int| 0 <= i < k ==> c1[i] == c2[i] && z1[i] == z2[i],
    ensures
        mipp_rounds_bytes(c1, z1, k) == mipp_rounds_bytes(c2, z2, k),
    decreases k,
{
    if k > 0 {
        lemma_mipp_prefix(c1, z1, c2, z2, (k - 1) as nat);
        assert(c1[k - 1] == c2[k - 1] && z1[k - 1] == z2[k - 1]);
    }
}


/// `p` and `q` hold the same elements: every field, round and opening has the
/// same encoding.
pub open spec fn same_content(p: AggregateProof, q: AggregateProof) -> bool {
    let (t, u) = (p.proof_ab, q.proof_ab);
    let (m, n) = (p.proof_c, q.proof_c);
    &&& header_bytes(p) == header_bytes(q)
    &&& p.com_ab.0@ == q.com_ab.0@ && p.com_ab.1@ == q.com_ab.1@ && p.com_c@ == q.com_c@
    &&& p.ip_ab@ == q.ip_ab@ && p.agg_c@ == q.agg_c@
    &&& t.gipa.comms@.len() == u.gipa.comms@.len() && t.gipa.z_vec@.len() == u.gipa.z_vec@.len()
    &&& forall|i: int| 0 <= i < t.gipa.comms@.len() ==> {
        &&& (#[trigger] t.gipa.comms@[i]).0.0@ == u.gipa.comms@[i].0.0@
        &&& t.gipa.comms@[i].0.1@ == u.gipa.comms@[i].0.1@
        &&& t.gipa.comms@[i].1.0@ == u.gipa.comms@[i].1.0@
        &&& t.gipa.comms@[i].1.1@ == u.gipa.comms@[i].1.1@
        &&& t.gipa.z_vec@[i].0@ == u.gipa.z_vec@[i].0@ && t.gipa.z_vec@[i].1@ == u.gipa.z_vec@[i].1@
    }
    &&& t.gipa.final_a@ == u.gipa.final_a@ && t.gipa.final_b@ == u.gipa.final_b@
    &&& t.gipa.final_vkey@ == u.gipa.final_vkey@ && t.gipa.final_wkey@ == u.gipa.final_wkey@
    &&& t.vkey_opening.0@ == u.vkey_opening.0@ && t.vkey_opening.1@ == u.vkey_opening.1@
    &&& t.wkey_opening.0@ == u.wkey_opening.0@ && t.wkey_opening.1@ == u.wkey_opening.1@
    &&& m.gipa.comms@.len() == n.gipa.comms@.len() && m.gipa.z_vec@.len() == n.gipa.z_vec@.len()
    &&& forall|i: int| 0 <= i < m.gipa.comms@.len() ==> {
        &&& (#[trigger] m.gipa.comms@[i]).0@ == n.gipa.comms@[i].0@ && m.gipa.comms@[i].1@ == n.gipa.comms@[i].1@
        &&& m.gipa.z_vec@[i].0@ == n.gipa.z_vec@[i].0@ && m.gipa.z_vec@[i].1@ == n.gipa.z_vec@[i].1@
    }
    &&& m.gipa.final_c@ == n.gipa.final_c@ && m.gipa.final_r.bytes@ == n.gipa.final_r.bytes@
    &&& m.gipa.final_vkey@ == n.gipa.final_vkey@
    &&& m.vkey_opening.0@ == n.vkey_opening.0@ && m.vkey_opening.1@ == n.vkey_opening.1@
}

/// Decoding the encoding of a proof gives the proof back: what `from_bytes`
/// returns on `encode(p)` (a proof with that encoding, of the round count that
/// the length gives) holds the same elements as `p`. The encoding has a length
/// that `from_bytes` reads.
pub proof fn lemma_round_trip(p: AggregateProof, q: AggregateProof, l: nat)
    requires
        rounds_are(p, l),
        encode(q) == encode(p),
        rounds_are(q, ((encode(p).len() - FIXED_LEN) / (ROUND_LEN as int)) as nat),
    ensures
        encode(p).len() >= FIXED_LEN && (encode(p).len() - FIXED_LEN) % (ROUND_LEN as int) == 0,
        same_content(p, q),
{
    lemma_encode_len(p, l);
    vstd::arithmetic::div_mod::lemma_div_by_multiple(l as int, ROUND_LEN as int);
    vstd::arithmetic::div_mod::lemma_mod_multiples_basic(l as int, ROUND_LEN as int);
    assert(encode(p).len() - FIXED_LEN == l * ROUND_LEN);
    assert(rounds_are(q, l));
    lemma_rounds_len(p, l);
    lemma_rounds_len(q, l);
    let (t, u) = (p.proof_ab, q.proof_ab);
    let (m, n) = (p.proof_c, q.proof_c);
    let hp = header_bytes(p);
    let hq = header_bytes(q);
    let trp = tipp_rounds_bytes(t.gipa.comms@, t.gipa.z_vec@, l);
    let trq = tipp_rounds_bytes(u.gipa.comms@, u.gipa.z_vec@, l);
    let mrp = mipp_rounds_bytes(m.gipa.comms@, m.gipa.z_vec@, l);
    let mrq = mipp_rounds_bytes(n.gipa.comms@, n.gipa.z_vec@, l);
    lemma_split(hp + trp + tipp_tail_bytes(t) + mrp, mipp_tail_bytes(m), hq + trq + tipp_tail_bytes(u) + mrq, mipp_tail_bytes(n));
    lemma_split(hp + trp + tipp_tail_bytes(t), mrp, hq + trq + tipp_tail_bytes(u), mrq);
    lemma_split(hp + trp, tipp_tail_bytes(t), hq + trq, tipp_tail_bytes(u));
    lemma_split(hp, trp, hq, trq);
    lemma_tipp_rounds_injective(t.gipa.comms@, t.gipa.z_vec@, u.gipa.comms@, u.gipa.z_vec@, l);
    lemma_mipp_rounds_injective(m.gipa.comms@, m.gipa.z_vec@, n.gipa.comms@, n.gipa.z_vec@, l);
    // the header
    lemma_split(p.com_ab.0@ + p.com_ab.1@ + p.com_c@ + p.ip_ab@, p.agg_c@, q.com_ab.0@ + q.com_ab.1@ + q.com_c@ + q.ip_ab@, q.agg_c@);
    lemma_split(p.com_ab.0@ + p.com_ab.1@ + p.com_c@, p.ip_ab@, q.com_ab.0@ + q.com_ab.1@ + q.com_c@, q.ip_ab@);
    lemma_split(p.com_ab.0@ + p.com_ab.1@, p.com_c@, q.com_ab.0@ + q.com_ab.1@, q.com_c@);
    lemma_split(p.com_ab.0@, p.com_ab.1@, q.com_ab.0@, q.com_ab.1@);
    // the TIPP finals and openings
    let (g, h) = (t.gipa, u.gipa);
    lemma_split(g.final_a@ + g.final_b@ + g.final_vkey@ + g.final_wkey@ + t.vkey_opening.0@ + t.vkey_opening.1@ + t.wkey_opening.0@, t.wkey_opening.1@,
        h.final_a@ + h.final_b@ + h.final_vkey@ + h.final_wkey@ + u.vkey_opening.0@ + u.vkey_opening.1@ + u.wkey_opening.0@, u.wkey_opening.1@);
    lemma_split(g.final_a@ + g.final_b@ + g.final_vkey@ + g.final_wkey@ + t.vkey_opening.0@ + t.vkey_opening.1@, t.wkey_opening.0@,
        h.final_a@ + h.final_b@ + h.final_vkey@ + h.final_wkey@ + u.vkey_opening.0@ + u.vkey_opening.1@, u.wkey_opening.0@);
    lemma_split(g.final_a@ + g.final_b@ + g.final_vkey@ + g.final_wkey@ + t.vkey_opening.0@, t.vkey_opening.1@,
        h.final_a@ + h.final_b@ + h.final_vkey@ + h.final_wkey@ + u.vkey_opening.0@, u.vkey_opening.1@);
    lemma_split(g.final_a@ + g.final_b@ + g.final_vkey@ + g.final_wkey@, t.vkey_opening.0@,
        h.final_a@ + h.final_b@ + h.final_vkey@ + h.final_wkey@, u.vkey_opening.0@);
    lemma_split(g.final_a@ + g.final_b@ + g.final_vkey@, g.final_wkey@, h.final_a@ + h.final_b@ + h.final_vkey@, h.final_wkey@);
    lemma_split(g.final_a@ + g.final_b@, g.final_vkey@, h.final_a@ + h.final_b@, h.final_vkey@);
    lemma_split(g.final_a@, g.final_b@, h.final_a@, h.final_b@);
    // the MIPP finals and opening
    let (e, f) = (m.gipa, n.gipa);
    lemma_split(e.final_c@ + e.final_r.bytes@ + e.final_vkey@ + m.vkey_opening.0@, m.vkey_opening.1@,
        f.final_c@ + f.final_r.bytes@ + f.final_vkey@ + n.vkey_opening.0@, n.vkey_opening.1@);
    lemma_split(e.final_c@ + e.final_r.bytes@ + e.final_vkey@, m.vkey_opening.0@, f.final_c@ + f.final_r.bytes@ + f.final_vkey@, n.vkey_opening.0@);
    lemma_split(e.final_c@ + e.final_r.bytes@, e.final_vkey@, f.final_c@ + f.final_r.bytes@, f.final_vkey@);
    lemma_split(e.final_c@, e.final_r.bytes@, f.final_c@, f.final_r.bytes@);
}

} // verus!
