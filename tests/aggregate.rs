use bellperson::commit::{inner_product_multiexp, inner_product_pairing, pair, single_g1, VKey, WKey};
use bellperson::error::SynthesisError;
use bellperson::field::{structured_scalar_power, Fr};
use bellperson::gipa::{gipa_mipp, gipa_tipp};
use bellperson::group::{Gt, G1, G2};
use bellperson::kzg::{kzg_quotient, prove_commitment_key_kzg_opening, prove_commitment_key_kzg_opening_g1};
use bellperson::prove::{aggregate_proofs, prove_mipp, prove_tipp, AggregateProof, Proof, Srs};
use bellperson::transcript::derive_wide_challenge;
use bellperson::wire::{from_bytes, to_bytes, FIXED_LEN, ROUND_LEN};

fn fr(x: u64) -> Fr {
    Fr::from_u64(x)
}

fn g1(k: u64) -> G1 {
    G1::generator().times(&fr(k))
}

fn g2(k: u64) -> G2 {
    G2::generator().times(&fr(k))
}

fn srs(n: usize) -> Srs {
    let tau = fr(0x1234_5678);
    let alpha = fr(0x9abc);
    let beta = fr(0xdef0_1111);
    let powers = structured_scalar_power(2 * n, &tau);
    let g_alpha_powers = powers[..n].iter().map(|p| G1::generator().times(&alpha.times(p))).collect();
    let g_beta_powers = powers[..n].iter().map(|p| G1::generator().times(&beta.times(p))).collect();
    let h_alpha_powers = powers[..n].iter().map(|p| G2::generator().times(&alpha.times(p))).collect();
    let h_beta_powers = powers[..n].iter().map(|p| G2::generator().times(&beta.times(p))).collect();
    let vkey = VKey { v: powers[..n].iter().map(|p| G2::generator().times(p)).collect() };
    let wkey = WKey { w: powers[n..].iter().map(|p| G1::generator().times(p)).collect() };
    Srs { n, g_alpha_powers, g_beta_powers, h_alpha_powers, h_beta_powers, vkey, wkey }
}

fn proofs(n: usize, seed: u64) -> Vec<Proof> {
    (0..n as u64)
        .map(|i| Proof { a: g1(seed + 3 * i + 1), b: g2(seed + 3 * i + 2), c: g1(seed + 3 * i + 3) })
        .collect()
}

fn proof_bytes(p: &AggregateProof) -> Vec<u8> {
    let mut out = Vec::new();
    out.extend_from_slice(&p.com_ab.0.bytes);
    out.extend_from_slice(&p.com_ab.1.bytes);
    out.extend_from_slice(&p.com_c.bytes);
    out.extend_from_slice(&p.ip_ab.bytes);
    out.extend_from_slice(&p.agg_c.bytes);
    for ((cl, cr), (zl, zr)) in p.proof_ab.gipa.comms.iter().zip(p.proof_ab.gipa.z_vec.iter()) {
        for x in [cl.0, cl.1, cr.0, cr.1, *zl, *zr] {
            out.extend_from_slice(&x.bytes);
        }
    }
    out.extend_from_slice(&p.proof_ab.gipa.final_a.bytes);
    out.extend_from_slice(&p.proof_ab.gipa.final_b.bytes);
    out.extend_from_slice(&p.proof_ab.vkey_opening.0.bytes);
    out.extend_from_slice(&p.proof_ab.vkey_opening.1.bytes);
    out.extend_from_slice(&p.proof_ab.wkey_opening.0.bytes);
    out.extend_from_slice(&p.proof_ab.wkey_opening.1.bytes);
    for (t, (zl, zr)) in p.proof_c.gipa.comms.iter().zip(p.proof_c.gipa.z_vec.iter()) {
        out.extend_from_slice(&t.0.bytes);
        out.extend_from_slice(&t.1.bytes);
        out.extend_from_slice(&zl.bytes);
        out.extend_from_slice(&zr.bytes);
    }
    out.extend_from_slice(&p.proof_c.gipa.final_c.bytes);
    out.extend_from_slice(&p.proof_c.gipa.final_r.bytes);
    out.extend_from_slice(&p.proof_c.vkey_opening.0.bytes);
    out.extend_from_slice(&p.proof_c.vkey_opening.1.bytes);
    out
}

#[test]
fn group_wrappers_compute() {
    let a = g1(5);
    let s = a.plus(&g1(7));
    assert_ne!(s.bytes, a.bytes);
    assert_eq!(s.bytes, g1(12).bytes);
    assert_eq!(g2(2).plus(&g2(3)).bytes, g2(5).bytes);
    assert_eq!(g1(3).times(&fr(4)).bytes, g1(12).bytes);
    // bilinearity: e(2P, 3Q) = e(P, Q)^6
    let e = Gt::pairing(&g1(2), &g2(3));
    assert_eq!(e.bytes, Gt::pairing(&g1(6), &g2(1)).bytes);
    assert_eq!(Gt::pairing(&g1(1), &g2(1)).times(&Gt::pairing(&g1(2), &g2(1))).bytes, Gt::pairing(&g1(3), &g2(1)).bytes);
}

#[test]
fn inner_products() {
    let a = vec![g1(1), g1(2)];
    let b = vec![g2(3), g2(4)];
    // e(1,3) e(2,4) = e(1,1)^11
    assert_eq!(inner_product_pairing(&a, &b).bytes, Gt::pairing(&g1(11), &g2(1)).bytes);
    let s = vec![fr(5), fr(6)];
    assert_eq!(inner_product_multiexp(&a, &s).bytes, g1(17).bytes);
}

#[test]
fn keys_split_compress_scale() {
    let v = VKey { v: vec![g2(1), g2(2), g2(3), g2(4)] };
    let (l, r) = v.split(2);
    assert_eq!(l.v.iter().map(|x| x.bytes).collect::<Vec<_>>(), vec![g2(1).bytes, g2(2).bytes]);
    let c = VKey::compress(&l, &r, &fr(10));
    assert_eq!(c.v[0].bytes, g2(31).bytes);
    assert_eq!(c.v[1].bytes, g2(42).bytes);
    let s = v.scale(&vec![fr(2), fr(2), fr(2), fr(2)]);
    assert_eq!(s.first().bytes, g2(2).bytes);
    assert!(v.correct_len(4) && !v.correct_len(2));
    let w = WKey { w: vec![g1(1), g1(2)] };
    let (wl, wr) = w.split(1);
    assert_eq!(WKey::compress(&wl, &wr, &fr(3)).first().bytes, g1(7).bytes);
}

#[test]
fn commitment_survives_rescaling() {
    let n = 4;
    let s = srs(n);
    let ps = proofs(n, 10);
    let a: Vec<G1> = ps.iter().map(|p| p.a).collect();
    let b: Vec<G2> = ps.iter().map(|p| p.b).collect();
    let r = fr(12345);
    let r_vec = structured_scalar_power(n, &r);
    let r_inv: Vec<Fr> = r_vec.iter().map(|x| x.inverse().unwrap()).collect();
    let a_r: Vec<G1> = a.iter().zip(r_vec.iter()).map(|(x, k)| x.times(k)).collect();
    let direct = pair(&s.vkey, &s.wkey, &a, &b);
    let rescaled = pair(&s.vkey.scale(&r_inv), &s.wkey, &a_r, &b);
    assert_eq!(direct.0.bytes, rescaled.0.bytes);
    assert_eq!(direct.1.bytes, rescaled.1.bytes);
}

#[test]
fn gipa_single_element_takes_no_round() {
    let (p, chals) = gipa_tipp(&vec![g1(1)], &vec![g2(2)], &VKey { v: vec![g2(3)] }, &WKey { w: vec![g1(4)] }).unwrap();
    assert!(chals.is_empty() && p.comms.is_empty() && p.z_vec.is_empty());
    assert_eq!(p.final_a.bytes, g1(1).bytes);
    assert_eq!(p.final_wkey.bytes, g1(4).bytes);
}

#[test]
fn gipa_pair_takes_one_round() {
    let a = vec![g1(1), g1(2)];
    let b = vec![g2(3), g2(4)];
    let v = VKey { v: vec![g2(5), g2(6)] };
    let w = WKey { w: vec![g1(7), g1(8)] };
    let (p, chals) = gipa_tipp(&a, &b, &v, &w).unwrap();
    assert_eq!(chals.len(), 1);
    assert_eq!(p.comms.len(), 1);
    let c = chals[0];
    let c_inv = c.inverse().unwrap();
    assert_eq!(p.final_a.bytes, a[0].plus(&a[1].times(&c)).bytes);
    assert_eq!(p.final_b.bytes, b[0].plus(&b[1].times(&c_inv)).bytes);
    assert_eq!(p.final_vkey.bytes, v.v[0].plus(&v.v[1].times(&c_inv)).bytes);
    assert_eq!(p.final_wkey.bytes, w.w[0].plus(&w.w[1].times(&c)).bytes);
    // cross products of the round
    assert_eq!(p.z_vec[0].0.bytes, Gt::pairing(&a[1], &b[0]).bytes);
    assert_eq!(p.z_vec[0].1.bytes, Gt::pairing(&a[0], &b[1]).bytes);
}

#[test]
fn gipa_mipp_rounds() {
    let c = vec![g1(1), g1(2), g1(3), g1(4)];
    let r = vec![fr(1), fr(2), fr(3), fr(4)];
    let v = VKey { v: vec![g2(5), g2(6), g2(7), g2(8)] };
    let (p, chals) = gipa_mipp(&c, &r, &v).unwrap();
    assert_eq!(chals.len(), 2);
    assert_eq!(p.comms.len(), 2);
    assert_eq!(p.z_vec[0].0.bytes, inner_product_multiexp(&c[2..], &r[..2]).bytes);
    assert_eq!(p.z_vec[0].1.bytes, inner_product_multiexp(&c[..2], &r[2..]).bytes);
}

#[test]
fn kzg_quotient_sizes() {
    let t = vec![fr(2), fr(3)];
    assert_eq!(kzg_quotient(3, &t, &fr(1), &fr(5)), Err(SynthesisError::MalformedSrs));
    let q = kzg_quotient(4, &t, &fr(1), &fr(5)).unwrap();
    // f = (1 + 2X)(1 + 3X^2) = 1 + 2X + 3X^2 + 6X^3; q = 6X^2 + 33X + 167, padded
    assert_eq!(q, vec![fr(167), fr(33), fr(6), fr(0)]);
}

#[test]
fn kzg_openings_commit_to_the_quotient() {
    let s = srs(4);
    let t = vec![fr(2), fr(3)];
    let (pa, pb) = prove_commitment_key_kzg_opening(&s.h_alpha_powers, &s.h_beta_powers, 4, &t, &fr(1), &fr(5)).unwrap();
    let q = vec![fr(167), fr(33), fr(6), fr(0)];
    let expect_a = (0..3).fold(s.h_alpha_powers[3].times(&q[3]), |acc, i| acc.plus(&s.h_alpha_powers[i].times(&q[i])));
    assert_eq!(pa.bytes, expect_a.bytes);
    assert_ne!(pa.bytes, pb.bytes);
    let r = prove_commitment_key_kzg_opening_g1(&s.g_alpha_powers, &s.g_beta_powers, 2, &t, &fr(1), &fr(5));
    assert!(matches!(r, Err(SynthesisError::MalformedSrs)));
}

#[test]
fn prove_tipp_and_mipp_check_sizes() {
    let s = srs(2);
    let a = vec![g1(1), g1(2), g1(3)];
    let b = vec![g2(1), g2(2), g2(3)];
    let r = prove_tipp(&s, &a, &b, &s.vkey, &s.wkey, &fr(3));
    assert!(matches!(r, Err(SynthesisError::MalformedProofs)));
    let m = prove_mipp(&s, &vec![g1(1), g1(2)], &vec![fr(1), fr(2)], &VKey { v: vec![g2(1)] });
    assert!(matches!(m, Err(SynthesisError::MalformedSrs)));
    let ok = prove_tipp(&s, &a[..2].to_vec(), &b[..2].to_vec(), &s.vkey, &s.wkey, &fr(3)).unwrap();
    assert_eq!(ok.gipa.comms.len(), 1);
}

#[test]
fn aggregate_rejects_non_power_of_two() {
    let s = srs(4);
    assert!(matches!(aggregate_proofs(&s, &proofs(3, 1)), Err(SynthesisError::MalformedProofs)));
    assert!(matches!(aggregate_proofs(&s, &proofs(0, 1)), Err(SynthesisError::MalformedProofs)));
}

#[test]
fn aggregate_rejects_srs_of_other_size() {
    let s = srs(2);
    assert!(matches!(aggregate_proofs(&s, &proofs(4, 1)), Err(SynthesisError::MalformedSrs)));
}

#[test]
fn aggregate_four_proofs() {
    let n = 4;
    let s = srs(n);
    let ps = proofs(n, 100);
    let agg = aggregate_proofs(&s, &ps).unwrap();
    let a: Vec<G1> = ps.iter().map(|p| p.a).collect();
    let b: Vec<G2> = ps.iter().map(|p| p.b).collect();
    let c: Vec<G1> = ps.iter().map(|p| p.c).collect();
    let com_ab = pair(&s.vkey, &s.wkey, &a, &b);
    assert_eq!(agg.com_ab.0.bytes, com_ab.0.bytes);
    assert_eq!(agg.com_ab.1.bytes, com_ab.1.bytes);
    assert_eq!(agg.com_c.bytes, single_g1(&s.vkey, &c).bytes);
    // r is reproducible from the commitments
    let mut body = Vec::new();
    body.extend_from_slice(&agg.com_ab.0.bytes);
    body.extend_from_slice(&agg.com_ab.1.bytes);
    body.extend_from_slice(&agg.com_c.bytes);
    let r = derive_wide_challenge(&body).unwrap();
    let r_vec = structured_scalar_power(n, &r);
    let a_r: Vec<G1> = a.iter().zip(r_vec.iter()).map(|(x, k)| x.times(k)).collect();
    assert_eq!(agg.ip_ab.bytes, inner_product_pairing(&a_r, &b).bytes);
    assert_eq!(agg.agg_c.bytes, inner_product_multiexp(&c, &r_vec).bytes);
    // log2 n rounds on both sides
    assert_eq!(agg.proof_ab.gipa.comms.len(), 2);
    assert_eq!(agg.proof_ab.gipa.z_vec.len(), 2);
    assert_eq!(agg.proof_c.gipa.comms.len(), 2);
}

#[test]
fn aggregate_single_proof_has_empty_transcript() {
    let s = srs(1);
    let ps = proofs(1, 7);
    let agg = aggregate_proofs(&s, &ps).unwrap();
    assert!(agg.proof_ab.gipa.comms.is_empty());
    assert!(agg.proof_c.gipa.comms.is_empty());
    // with r^0 = 1 the aggregate is the proof itself
    assert_eq!(agg.agg_c.bytes, ps[0].c.bytes);
    assert_eq!(agg.ip_ab.bytes, Gt::pairing(&ps[0].a, &ps[0].b).bytes);
}

#[test]
fn aggregate_is_deterministic() {
    let s = srs(2);
    let ps = proofs(2, 42);
    let first = aggregate_proofs(&s, &ps).unwrap();
    let second = aggregate_proofs(&s, &ps).unwrap();
    assert_eq!(proof_bytes(&first), proof_bytes(&second));
    let other = aggregate_proofs(&s, &proofs(2, 43)).unwrap();
    assert_ne!(proof_bytes(&first), proof_bytes(&other));
}

#[test]
fn encoding_round_trips() {
    let s = srs(2);
    let agg = aggregate_proofs(&s, &proofs(2, 5)).unwrap();
    let bytes = to_bytes(&agg);
    assert_eq!(bytes.len(), FIXED_LEN + ROUND_LEN);
    let back = from_bytes(&bytes).unwrap();
    assert_eq!(proof_bytes(&back), proof_bytes(&agg));
    assert_eq!(to_bytes(&back), bytes);
    assert_eq!(back.proof_ab.gipa.comms.len(), 1);
    assert_eq!(back.proof_c.gipa.final_r, agg.proof_c.gipa.final_r);
}

#[test]
fn encoding_of_wrong_length_is_refused() {
    assert!(from_bytes(&vec![0u8; FIXED_LEN - 1]).is_none());
    assert!(from_bytes(&vec![0u8; FIXED_LEN + 1]).is_none());
    let zero = from_bytes(&vec![0u8; FIXED_LEN]).unwrap();
    assert!(zero.proof_ab.gipa.comms.is_empty());
    assert!(from_bytes(&vec![0u8; FIXED_LEN + 2 * ROUND_LEN]).is_some());
}
