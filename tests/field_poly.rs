use bellperson::field::{fr_from_u128, structured_scalar_power, Fr};
use bellperson::poly::{
    divide_by_linear, evaluate, polynomial_coefficients_from_transcript,
    polynomial_evaluation_product_form_from_transcript,
};
use bellperson::pow2::is_power_of_two;
use bellperson::transcript::{append_bytes, derive_round_challenge, derive_wide_challenge, is_zero, u64_to_be};

fn fr(x: u64) -> Fr {
    Fr::from_u64(x)
}

#[test]
fn scalar_arithmetic_matches_integers() {
    assert_eq!(fr(2).plus(&fr(3)), fr(5));
    assert_eq!(fr(6).times(&fr(7)), fr(42));
    assert_eq!(fr(10).minus(&fr(4)), fr(6));
    let minus_one = fr(0).minus(&fr(1));
    assert_eq!(minus_one.plus(&fr(1)), fr(0));
}

#[test]
fn scalar_from_u64_is_little_endian() {
    let x = fr(0x0102);
    assert_eq!(x.bytes[0], 0x02);
    assert_eq!(x.bytes[1], 0x01);
    assert!(x.bytes[2..].iter().all(|b| *b == 0));
}

#[test]
fn inverse_of_zero_is_none_and_others_invert() {
    assert!(fr(0).inverse().is_none());
    let inv = fr(7).inverse().unwrap();
    assert_eq!(fr(7).times(&inv), fr(1));
}

#[test]
fn fr_from_u128_reads_big_endian_prefix() {
    let mut bytes = [0u8; 32];
    bytes[15] = 0x05;
    bytes[14] = 0x01;
    bytes[20] = 0xff;
    assert_eq!(fr_from_u128(&bytes), fr(0x0105));
    let mut high = [0u8; 16];
    high[7] = 1;
    // 2^64: the upper half lands in limb 1
    let v = fr_from_u128(&high);
    assert_eq!(v.bytes[8], 1);
    assert!(v.bytes[..8].iter().all(|b| *b == 0));
    assert!(v.bytes[9..].iter().all(|b| *b == 0));
}

#[test]
fn structured_powers() {
    let v = structured_scalar_power(5, &fr(3));
    assert_eq!(v, vec![fr(1), fr(3), fr(9), fr(27), fr(81)]);
    assert!(structured_scalar_power(0, &fr(3)).is_empty());
}

#[test]
fn coefficients_of_two_challenges() {
    // (1 + x0 r X)(1 + x1 r^2 X^2) = 1 + x0 r X + x1 r^2 X^2 + x0 x1 r^3 X^3
    let t = vec![fr(2), fr(5)];
    let c = polynomial_coefficients_from_transcript(&t, &fr(3));
    assert_eq!(c, vec![fr(1), fr(6), fr(45), fr(270)]);
    let empty: Vec<Fr> = Vec::new();
    assert_eq!(polynomial_coefficients_from_transcript(&empty, &fr(3)), vec![fr(1)]);
}

#[test]
fn product_form_equals_expanded_evaluation() {
    let t = vec![fr(2), fr(5), fr(11)];
    let r = fr(3);
    let z = fr(7);
    let coeffs = polynomial_coefficients_from_transcript(&t, &r);
    assert_eq!(coeffs.len(), 8);
    let expanded = evaluate(&coeffs, &z);
    let product = polynomial_evaluation_product_form_from_transcript(&t, &z, &r);
    assert_eq!(expanded, product);
    // (1 + 2*21)(1 + 5*21^2)(1 + 11*21^4)
    let expected = 43u64 * 2206 * (1 + 11 * 194481);
    assert_eq!(product, fr(expected));
}

#[test]
fn product_form_of_large_values_agrees() {
    let t = vec![fr_from_u128(&[0xab; 16]), fr_from_u128(&[0x5c; 16])];
    let r = fr_from_u128(&[0x11; 16]);
    let z = fr_from_u128(&[0x77; 16]);
    let coeffs = polynomial_coefficients_from_transcript(&t, &r);
    assert_eq!(evaluate(&coeffs, &z), polynomial_evaluation_product_form_from_transcript(&t, &z, &r));
}

#[test]
fn synthetic_division_by_linear_factor() {
    // (3X^2 + 2X + 1 - f(5)) / (X - 5) = 3X + 17
    let q = divide_by_linear(&vec![fr(1), fr(2), fr(3)], &fr(5));
    assert_eq!(q, vec![fr(17), fr(3)]);
    assert!(divide_by_linear(&vec![fr(9)], &fr(5)).is_empty());
}

#[test]
fn powers_of_two() {
    assert!(is_power_of_two(1));
    assert!(is_power_of_two(8));
    assert!(!is_power_of_two(0));
    assert!(!is_power_of_two(6));
    assert!(!is_power_of_two(3));
}

#[test]
fn counter_is_big_endian() {
    assert_eq!(u64_to_be(0x0102030405060708), vec![1, 2, 3, 4, 5, 6, 7, 8]);
    assert_eq!(u64_to_be(0), vec![0u8; 8]);
}

#[test]
fn append_keeps_order() {
    let mut buf = vec![1u8, 2];
    append_bytes(&mut buf, &[3, 4]);
    assert_eq!(buf, vec![1, 2, 3, 4]);
}

#[test]
fn zero_test() {
    assert!(is_zero(&fr(0)));
    assert!(!is_zero(&fr(1 << 40)));
}

#[test]
fn round_challenge_is_deterministic_and_invertible() {
    let body = b"some transcript bytes".to_vec();
    let (c1, i1) = derive_round_challenge(&body).unwrap();
    let (c2, i2) = derive_round_challenge(&body).unwrap();
    assert_eq!(c1, c2);
    assert_eq!(i1, i2);
    assert_eq!(c1.times(&i1), fr(1));
    assert!(!is_zero(&c1));
    // c_inv is the 128-bit digest prefix: its upper half is zero
    assert!(i1.bytes[16..].iter().all(|b| *b == 0));
    let (c3, _) = derive_round_challenge(&b"other bytes".to_vec()).unwrap();
    assert_ne!(c1, c3);
}

#[test]
fn wide_challenge_is_deterministic_and_nonzero() {
    let body = vec![9u8; 40];
    let a = derive_wide_challenge(&body).unwrap();
    let b = derive_wide_challenge(&body).unwrap();
    assert_eq!(a, b);
    assert!(!is_zero(&a));
    assert!(a.inverse().is_some());
}
