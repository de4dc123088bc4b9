use frostdao::group::{hash_to_scalar, tagged_hash, Point, Scalar};
use frostdao::poly::{commit_coefficients, evaluate, feldman_evaluate, lagrange_coefficient, point_eq};
use k256::elliptic_curve::group::GroupEncoding;
use sha2::Digest;

fn hex(s: &str) -> Vec<u8> {
    (0..s.len() / 2).map(|i| u8::from_str_radix(&s[2 * i..2 * i + 2], 16).unwrap()).collect()
}

fn scalar(x: u64) -> Scalar {
    let mut bytes = [0u8; 32];
    bytes[24..].copy_from_slice(&x.to_be_bytes());
    Scalar { bytes }
}

/// The order minus `x`.
fn minus(x: u8) -> Scalar {
    let mut bytes = [0u8; 32];
    bytes.copy_from_slice(&hex(ORDER_HEX));
    bytes[31] -= x;
    Scalar { bytes }
}

const ORDER_HEX: &str = "FFFFFFFFFFFFFFFFFFFFFFFFFFFFFFFEBAAEDCE6AF48A03BBFD25E8CD0364141";
const G_HEX: &str = "0279BE667EF9DCBBAC55A06295CE870B07029BFCDB2DCE28D959F2815B16F81798";
const G2_HEX: &str = "02C6047F9441ED7D6D3045406E95C07CD85C778E4B8CEF3CA7ABAC09B95C709EE5";
const G3_HEX: &str = "02F9308A019258C31049344F85F89D5229B531C845836F99B08601F113BCE036F9";

#[test]
fn polynomial_evaluation_by_horner() {
    // 3 + 2x + 5x^2 at x = 4 is 3 + 8 + 80 = 91.
    let cs = vec![scalar(3), scalar(2), scalar(5)];
    assert_eq!(evaluate(&cs, &scalar(4)), scalar(91));
    assert_eq!(evaluate(&cs, &scalar(0)), scalar(3));
    assert_eq!(evaluate(&vec![], &scalar(9)), scalar(0));
}

#[test]
fn polynomial_evaluation_wraps_at_the_order() {
    // (q - 1) + (q - 1) x at x = 1 is q - 2; at x = q - 1 it is (q - 1) + 1 = 0.
    let cs = vec![minus(1), minus(1)];
    assert_eq!(evaluate(&cs, &scalar(1)), minus(2));
    assert_eq!(evaluate(&cs, &minus(1)), scalar(0));
}

#[test]
fn commitments_are_multiples_of_the_generator() {
    let cms = commit_coefficients(&vec![scalar(1), scalar(2), scalar(3)]);
    assert_eq!(cms[0].bytes.to_vec(), hex(G_HEX));
    assert_eq!(cms[1].bytes.to_vec(), hex(G2_HEX));
    assert_eq!(cms[2].bytes.to_vec(), hex(G3_HEX));
    let expected = (k256::ProjectivePoint::GENERATOR * k256::Scalar::from(91u64)).to_bytes();
    let c91 = commit_coefficients(&vec![scalar(91)]);
    assert_eq!(c91[0].bytes.to_vec(), expected.to_vec());
}

#[test]
fn feldman_evaluation_adds_and_multiplies_points() {
    // G + 2 * G = 3G.
    let g = commit_coefficients(&vec![scalar(1)])[0];
    let cms = vec![g, g];
    assert_eq!(feldman_evaluate(&cms, &scalar(2)).bytes.to_vec(), hex(G3_HEX));
    assert_eq!(feldman_evaluate(&vec![g], &scalar(2)), g);
}

#[test]
fn feldman_evaluation_matches_the_evaluated_share() {
    let cs = vec![scalar(3), scalar(2), scalar(5)];
    let cms = commit_coefficients(&cs);
    let x = scalar(4);
    let share = evaluate(&cs, &x);
    assert_eq!(feldman_evaluate(&cms, &x), commit_coefficients(&vec![share])[0]);
}

#[test]
fn lagrange_coefficients_for_two_of_three() {
    // Over {1, 3}: lambda_1 = 3 / 2 and lambda_3 = -1 / 2. As polynomial
    // evaluations: 2 * lambda_1 = 3 and 2 * lambda_3 = q - 1.
    let set = vec![1u16, 3u16];
    let l1 = lagrange_coefficient(1, &set);
    let l3 = lagrange_coefficient(3, &set);
    assert_eq!(evaluate(&vec![scalar(0), l1], &scalar(2)), scalar(3));
    assert_eq!(evaluate(&vec![scalar(0), l3], &scalar(2)), minus(1));
    // They interpolate f(x) = 7 + 4x at zero from f(1) = 11 and f(3) = 19.
    let a = evaluate(&vec![scalar(0), l1], &scalar(11));
    let b = evaluate(&vec![a, l3], &scalar(19));
    assert_eq!(b, scalar(7));
    assert_eq!(lagrange_coefficient(2, &vec![2u16]), scalar(1));
}

#[test]
fn lagrange_coefficients_three_of_five() {
    // Over {2, 4, 5}: lambda_2 = (4 * 5) / ((4 - 2)(5 - 2)) = 20 / 6 = 10 / 3.
    let l2 = lagrange_coefficient(2, &vec![2u16, 4, 5]);
    assert_eq!(evaluate(&vec![scalar(0), l2], &scalar(3)), scalar(10));
}

#[test]
fn tagged_hash_prefixes_the_tag_digest_twice() {
    let t = sha2::Sha256::digest(b"tag");
    let mut h = sha2::Sha256::new();
    h.update(t);
    h.update(t);
    h.update(b"msg");
    let expected: [u8; 32] = h.finalize().into();
    assert_eq!(tagged_hash(b"tag", b"msg"), expected);
    assert_ne!(tagged_hash(b"tag", b"msg"), tagged_hash(b"tah", b"msg"));
}

#[test]
fn hash_to_scalar_reads_the_digest_big_endian() {
    let h = tagged_hash(b"tag", b"msg");
    let s = hash_to_scalar(b"tag", b"msg");
    // The digest is below the order with overwhelming likelihood: then it is kept.
    if h[0] < 0xff {
        assert_eq!(s.bytes, h);
    }
}

#[test]
fn point_equality_is_bytewise() {
    let g = Point { bytes: hex(G_HEX).try_into().unwrap() };
    let mut h = g;
    assert!(point_eq(&g, &h));
    h.bytes[32] ^= 1;
    assert!(!point_eq(&g, &h));
}
