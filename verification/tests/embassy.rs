use p256_cortex_m4::embassy_crypto::{
    generator, point_from_words, LincombRoute, P256AffinePoint, P256CortexM4, P256Scalar,
    ProjectivePoint, Scalar,
};

const A_HEX: &str = "0123456789abcdef0fedcba98765432100112233445566778899aabbccddeeff";
const B_HEX: &str = "fedcba9876543210f0e1d2c3b4a5968778695a4b3c2d1e0f1122334455667788";
const ORDER_HEX: &str = "ffffffff00000000ffffffffffffffffbce6faada7179e84f3b9cac2fc632551";

fn bytes32(hex: &str) -> [u8; 32] {
    let digits: Vec<u8> = hex
        .bytes()
        .map(|c| match c {
            b'0'..=b'9' => c - b'0',
            b'a'..=b'f' => c - b'a' + 10,
            _ => panic!("not a hex digit"),
        })
        .collect();
    let padded: Vec<u8> = std::iter::repeat(0u8)
        .take(64 - digits.len())
        .chain(digits.into_iter())
        .collect();
    let mut out = [0u8; 32];
    for i in 0..32 {
        out[i] = padded[2 * i] * 16 + padded[2 * i + 1];
    }
    out
}

fn scalar(hex: &str) -> Scalar {
    P256CortexM4::scalar_from_canonical(&P256Scalar(bytes32(hex)))
}

fn canonical(s: &Scalar) -> [u8; 32] {
    P256CortexM4::scalar_to_canonical(s).0
}

fn sample_point() -> ProjectivePoint {
    point_from_words([3u32; 8], [5u32; 8], [1, 0, 0, 0xffffffff, 0xffffffff, 0xffffffff, 0xfffffffe, 0])
}

#[test]
fn canonical_scalar_round_trip() {
    let bytes = bytes32(B_HEX);
    let s = scalar(B_HEX);
    assert_eq!(s.inner[0], 0x55667788);
    assert_eq!(s.inner[7], 0xfedcba98);
    assert_eq!(s._pad, [0u32; 8]);
    assert_eq!(canonical(&s), bytes);
}

#[test]
fn scalar_is_zero_checks_every_limb() {
    assert!(P256CortexM4::scalar_is_zero(&scalar("00")));
    assert!(!P256CortexM4::scalar_is_zero(&scalar("01")));
    assert!(!P256CortexM4::scalar_is_zero(&scalar("0100000000000000000000000000000000000000000000000000000000000000")));
}

#[test]
fn scalar_add_mul_neg() {
    let a = scalar(A_HEX);
    let b = scalar(B_HEX);
    assert_eq!(
        canonical(&P256CortexM4::scalar_add(&a, &b)),
        bytes32("ffffffff00cf9e6d3c0ad9a8bb9381d0d96ae601a602133d25e14136")
    );
    assert_eq!(
        canonical(&P256CortexM4::scalar_mul(&a, &b)),
        bytes32("312901e3df9bc3a580ca3e4057dec20b20ede7dfa121cbc1ae154d754c0817f0")
    );
    assert_eq!(
        canonical(&P256CortexM4::scalar_neg(&a)),
        bytes32("fedcba9776543211f0123456789abcdebcd5d87a62c2380d6b2020072f853652")
    );
}

#[test]
fn scalar_arithmetic_reduces_unreduced_inputs() {
    let n = scalar(ORDER_HEX);
    let one = scalar("01");
    assert_eq!(canonical(&P256CortexM4::scalar_add(&n, &one)), bytes32("01"));
    assert_eq!(canonical(&P256CortexM4::scalar_mul(&n, &one)), bytes32("00"));
    assert_eq!(canonical(&P256CortexM4::scalar_neg(&n)), bytes32("00"));
}

#[test]
fn scalar_inv_and_fallback() {
    let a = scalar(A_HEX);
    let expected = bytes32("a772c15b215f16e8271b13e9c7c48b15c6b8394df415b42f0e93abaa4b5f525d");
    assert_eq!(canonical(&P256CortexM4::scalar_inv(&a)), expected);
    assert_eq!(canonical(&P256CortexM4::scalar_inv_vartime(&a)), expected);
    let zero = scalar("00");
    assert_eq!(canonical(&P256CortexM4::scalar_inv(&zero)), [0u8; 32]);
    assert_eq!(canonical(&P256CortexM4::scalar_inv_vartime(&zero)), [0u8; 32]);
}

#[test]
fn scalar_inv_is_multiplicative_inverse() {
    let b = scalar(B_HEX);
    let inv = P256CortexM4::scalar_inv(&b);
    assert_eq!(canonical(&P256CortexM4::scalar_mul(&b, &inv)), bytes32("01"));
}

#[test]
fn scalar_reduce_bytes_values() {
    assert_eq!(canonical(&P256CortexM4::scalar_reduce_bytes(&bytes32(ORDER_HEX))), [0u8; 32]);
    assert_eq!(
        canonical(&P256CortexM4::scalar_reduce_bytes(&bytes32(
            "ffffffff00000000ffffffffffffffffbce6faada7179e84f3b9cac2fc632556"
        ))),
        bytes32("05")
    );
    assert_eq!(
        canonical(&P256CortexM4::scalar_reduce_bytes(&[0xffu8; 32])),
        bytes32("ffffffff00000000000000004319055258e8617b0c46353d039cdaae")
    );
    assert_eq!(canonical(&P256CortexM4::scalar_reduce_bytes(&bytes32(A_HEX))), bytes32(A_HEX));
}

#[test]
fn sec1_framing_round_trip() {
    let g = generator();
    let sec1 = P256CortexM4::point_to_sec1_uncompressed(&g);
    assert_eq!(sec1[0], 0x04);
    assert_eq!(&sec1[1..33], &g.x[..]);
    assert_eq!(&sec1[33..65], &g.y[..]);
    let back: P256AffinePoint = P256CortexM4::point_from_sec1_uncompressed(&sec1);
    assert_eq!(back.x, g.x);
    assert_eq!(back.y, g.y);
}

#[test]
fn generator_bytes() {
    let g = generator();
    assert_eq!(g.x[0], 0x6b);
    assert_eq!(g.x[31], 0x96);
    assert_eq!(g.y[0], 0x4f);
    assert_eq!(g.y[31], 0xf5);
}

#[test]
fn decoded_point_or_identity() {
    let x = [11u32; 8];
    let y = [13u32; 8];
    let p = P256CortexM4::point_from_decoded(true, x, y);
    assert_eq!(p.x, x);
    assert_eq!(p.y, y);
    assert_eq!(p.z, [1, 0, 0, 0xffffffff, 0xffffffff, 0xffffffff, 0xfffffffe, 0]);
    let q = P256CortexM4::point_from_decoded(false, x, y);
    assert_eq!(q.x, [0u32; 8]);
    assert_eq!(q.y, [0u32; 8]);
    assert_eq!(q.z, [0u32; 8]);
    assert!(P256CortexM4::projective_is_identity(&q));
    assert!(!P256CortexM4::projective_is_identity(&p));
}

#[test]
fn identity_is_all_zero() {
    let id = P256CortexM4::projective_identity();
    assert_eq!(id.x, [0u32; 8]);
    assert_eq!(id.y, [0u32; 8]);
    assert_eq!(id.z, [0u32; 8]);
    assert!(P256CortexM4::projective_is_identity(&id));
}

#[test]
fn mul_base_fallback_for_zero_scalar() {
    let out = sample_point();
    let kept = P256CortexM4::scalar_mul_base_result(&scalar("05"), out);
    assert_eq!(kept.x, out.x);
    assert_eq!(kept.z, out.z);
    let cleared = P256CortexM4::scalar_mul_base_result(&scalar("00"), out);
    assert_eq!(cleared.x, [0u32; 8]);
    assert_eq!(cleared.y, [0u32; 8]);
    assert_eq!(cleared.z, [0u32; 8]);
}

#[test]
fn mul_projective_fallbacks() {
    let out = sample_point();
    let p = sample_point();
    let id = P256CortexM4::projective_identity();
    let kept = P256CortexM4::scalar_mul_projective_result(&scalar("05"), &p, out);
    assert_eq!(kept.y, out.y);
    let zero_k = P256CortexM4::scalar_mul_projective_result(&scalar("00"), &p, out);
    assert!(P256CortexM4::projective_is_identity(&zero_k));
    assert_eq!(zero_k.x, [0u32; 8]);
    let id_p = P256CortexM4::scalar_mul_projective_result(&scalar("05"), &id, out);
    assert_eq!(id_p.y, [0u32; 8]);
    assert!(P256CortexM4::projective_is_identity(&id_p));
}

#[test]
fn lincomb_routes() {
    let p = sample_point();
    let id = P256CortexM4::projective_identity();
    assert_eq!(P256CortexM4::projective_lincomb_route(&id, &p), LincombRoute::SecondOnly);
    assert_eq!(P256CortexM4::projective_lincomb_route(&id, &id), LincombRoute::SecondOnly);
    assert_eq!(P256CortexM4::projective_lincomb_route(&p, &id), LincombRoute::FirstOnly);
    assert_eq!(P256CortexM4::projective_lincomb_route(&p, &p), LincombRoute::Both);
}
