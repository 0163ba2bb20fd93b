use p256_cortex_m4::traits::Scalar;

const ORDER_HEX: &str = "ffffffff00000000ffffffffffffffffbce6faada7179e84f3b9cac2fc632551";
const A_HEX: &str = "0123456789abcdef0fedcba98765432100112233445566778899aabbccddeeff";
const B_HEX: &str = "fedcba9876543210f0e1d2c3b4a5968778695a4b3c2d1e0f1122334455667788";

fn bytes32(hex: &str) -> [u8; 32] {
    let digits: Vec<u8> = hex
        .bytes()
        .map(|c| match c {
            b'0'..=b'9' => c - b'0',
            b'a'..=b'f' => c - b'a' + 10,
            _ => panic!("not a hex digit"),
        })
        .collect();
    let padded: Vec<u8> = std::iter::repeat(0u8)
        .take(64 - digits.len())
        .chain(digits.into_iter())
        .collect();
    let mut out = [0u8; 32];
    for i in 0..32 {
        out[i] = padded[2 * i] * 16 + padded[2 * i + 1];
    }
    out
}

fn scalar(hex: &str) -> Scalar {
    let decoded = Scalar::from_be_bytes(&bytes32(hex));
    assert!(decoded.is_some);
    decoded.value
}

#[test]
fn from_be_bytes_reads_limbs_little_endian() {
    let s = scalar(A_HEX);
    assert_eq!(
        *s.as_inner(),
        [0xccddeeff, 0x8899aabb, 0x44556677, 0x00112233, 0x87654321, 0x0fedcba9, 0x89abcdef, 0x01234567]
    );
}

#[test]
fn from_be_bytes_rejects_zero() {
    let decoded = Scalar::from_be_bytes(&[0u8; 32]);
    assert!(!decoded.is_some);
}

#[test]
fn from_be_bytes_rejects_order_and_above() {
    assert!(!Scalar::from_be_bytes(&bytes32(ORDER_HEX)).is_some);
    assert!(!Scalar::from_be_bytes(&[0xffu8; 32]).is_some);
    let above = Scalar::from_be_bytes(&bytes32(
        "ffffffff00000000ffffffffffffffffbce6faada7179e84f3b9cac2fc632552",
    ));
    assert!(!above.is_some);
}

#[test]
fn from_be_bytes_accepts_one_and_order_minus_one() {
    assert!(Scalar::from_be_bytes(&bytes32("01")).is_some);
    assert!(Scalar::from_be_bytes(&bytes32(
        "ffffffff00000000ffffffffffffffffbce6faada7179e84f3b9cac2fc632550"
    ))
    .is_some);
}

#[test]
fn be_bytes_round_trip() {
    let bytes = bytes32(B_HEX);
    let decoded = Scalar::from_be_bytes(&bytes);
    assert_eq!(decoded.value.to_be_bytes(), bytes);
}

#[test]
fn add_known_value() {
    let sum = scalar(A_HEX).add(&scalar(B_HEX));
    assert_eq!(
        sum.to_be_bytes(),
        bytes32("ffffffff00cf9e6d3c0ad9a8bb9381d0d96ae601a602133d25e14136")
    );
}

#[test]
fn add_wraps_around_the_order() {
    let minus_one = scalar("ffffffff00000000ffffffffffffffffbce6faada7179e84f3b9cac2fc632550");
    let two = scalar("02");
    assert_eq!(minus_one.add(&two).to_be_bytes(), bytes32("01"));
}

#[test]
fn mul_known_value() {
    let product = scalar(A_HEX).mul(&scalar(B_HEX));
    assert_eq!(
        product.to_be_bytes(),
        bytes32("312901e3df9bc3a580ca3e4057dec20b20ede7dfa121cbc1ae154d754c0817f0")
    );
}

#[test]
fn double_is_add_to_itself() {
    let a = scalar(B_HEX);
    assert!(a.double() == a.add(&a));
    assert_eq!(scalar("03").double().to_be_bytes(), bytes32("06"));
}

#[test]
fn square_is_mul_by_itself() {
    let a = scalar(A_HEX);
    assert!(a.square() == a.mul(&a));
    assert_eq!(scalar("07").square().to_be_bytes(), bytes32("31"));
}

#[test]
fn negate_known_value() {
    assert_eq!(
        scalar(A_HEX).negate().to_be_bytes(),
        bytes32("fedcba9776543211f0123456789abcdebcd5d87a62c2380d6b2020072f853652")
    );
}

#[test]
fn negate_zero_is_zero() {
    assert!(Scalar::zero().negate() == Scalar::zero());
}

#[test]
fn negation_cancels_under_addition() {
    let a = scalar(B_HEX);
    assert!(a.add(&a.negate()) == Scalar::zero());
}

#[test]
fn inv_known_value() {
    let inv = scalar(A_HEX).inv();
    assert!(inv.is_some);
    assert_eq!(
        inv.value.to_be_bytes(),
        bytes32("a772c15b215f16e8271b13e9c7c48b15c6b8394df415b42f0e93abaa4b5f525d")
    );
}

#[test]
fn inv_of_two() {
    let inv = scalar("02").inv();
    assert!(inv.is_some);
    assert_eq!(
        inv.value.to_be_bytes(),
        bytes32("7fffffff800000007fffffffffffffffde737d56d38bcf4279dce5617e3192a9")
    );
}

#[test]
fn inv_of_zero_is_none() {
    let inv = Scalar::zero().inv();
    assert!(!inv.is_some);
    assert!(inv.value == Scalar::zero());
}

#[test]
fn inv_times_value_is_one() {
    for hex in [A_HEX, B_HEX, "02", "0abcdef1"] {
        let a = scalar(hex);
        let inv = a.inv();
        assert!(inv.is_some);
        assert_eq!(a.mul(&inv.value).to_be_bytes(), bytes32("01"));
    }
}

#[test]
fn ct_eq_and_eq_compare_limbs() {
    let a = scalar(A_HEX);
    let b = scalar(B_HEX);
    assert!(a.ct_eq(&a));
    assert!(!a.ct_eq(&b));
    assert!(a == a);
    assert!(a != b);
}

#[test]
fn conditional_select_picks_by_choice() {
    let a = scalar(A_HEX);
    let b = scalar(B_HEX);
    assert!(Scalar::conditional_select(&a, &b, false) == a);
    assert!(Scalar::conditional_select(&a, &b, true) == b);
}

#[test]
fn zeroize_clears_limbs() {
    let mut a = scalar(A_HEX);
    a.zeroize();
    assert_eq!(*a.as_inner(), [0u32; 8]);
}

#[test]
fn default_and_constants() {
    assert!(Scalar::default() == Scalar::zero());
    assert_eq!(*Scalar::zero().as_inner(), [0u32; 8]);
    assert_eq!(*Scalar::one().as_inner(), [1, 0, 0, 0, 0, 0, 0, 0]);
    assert_eq!(Scalar::one().to_be_bytes(), bytes32("01"));
    assert_eq!(Scalar::zero().to_be_bytes(), [0u8; 32]);
}

#[test]
fn one_is_multiplicative_identity() {
    let a = scalar(A_HEX);
    assert!(a.mul(&Scalar::one()) == a);
}

#[test]
fn inv_of_order_is_none() {
    let n = Scalar::from_be_bytes(&bytes32(ORDER_HEX)).value;
    let inv = n.inv();
    assert!(!inv.is_some);
    assert!(inv.value == Scalar::zero());
}
