use p256_cortex_m4::embassy_crypto::{mask, point_from_words, zeroize_point_if};
use p256_cortex_m4::limbs::{add_with_carry, be_bytes_from_words, sub_with_borrow, words_from_be_bytes};
use p256_cortex_m4::scalar_mod_n::{
    add_words, check_range_n, is_zero_words, order_words, reduce_once, select_words, sub_words,
};

const ORDER: [u32; 8] = [
    0xFC632551, 0xF3B9CAC2, 0xA7179E84, 0xBCE6FAAD, 0xFFFFFFFF, 0xFFFFFFFF, 0x00000000, 0xFFFFFFFF,
];

#[test]
fn words_from_be_bytes_layout() {
    let mut bytes = [0u8; 32];
    for i in 0..32 {
        bytes[i] = i as u8;
    }
    let w = words_from_be_bytes(&bytes);
    assert_eq!(w[0], 0x1c1d1e1f);
    assert_eq!(w[7], 0x00010203);
    assert_eq!(be_bytes_from_words(&w), bytes);
}

#[test]
fn be_bytes_from_words_layout() {
    let w = [0x11223344u32, 0, 0, 0, 0, 0, 0, 0xaabbccdd];
    let b = be_bytes_from_words(&w);
    assert_eq!(&b[0..4], &[0xaa, 0xbb, 0xcc, 0xdd]);
    assert_eq!(&b[28..32], &[0x11, 0x22, 0x33, 0x44]);
    assert_eq!(words_from_be_bytes(&b), w);
}

#[test]
fn carry_and_borrow_steps() {
    assert_eq!(add_with_carry(0xffffffff, 1, 0), (0, 1));
    assert_eq!(add_with_carry(0xffffffff, 0xffffffff, 1), (0xffffffff, 1));
    assert_eq!(add_with_carry(2, 3, 1), (6, 0));
    assert_eq!(sub_with_borrow(0, 1, 0), (0xffffffff, 1));
    assert_eq!(sub_with_borrow(5, 3, 1), (1, 0));
    assert_eq!(sub_with_borrow(0, 0xffffffff, 1), (0, 1));
}

#[test]
fn add_and_sub_words_carry_out() {
    let max = [0xffffffffu32; 8];
    let mut one = [0u32; 8];
    one[0] = 1;
    assert_eq!(add_words(&max, &one), ([0u32; 8], 1));
    assert_eq!(sub_words(&[0u32; 8], &one), (max, 1));
    assert_eq!(sub_words(&one, &one), ([0u32; 8], 0));
}

#[test]
fn order_limbs() {
    assert_eq!(order_words(), ORDER);
}

#[test]
fn range_check_of_scalars() {
    let mut one = [0u32; 8];
    one[0] = 1;
    let mut below = ORDER;
    below[0] -= 1;
    assert!(!check_range_n(&[0u32; 8]));
    assert!(check_range_n(&one));
    assert!(check_range_n(&below));
    assert!(!check_range_n(&ORDER));
    assert!(!check_range_n(&[0xffffffffu32; 8]));
}

#[test]
fn reduce_once_values() {
    assert_eq!(reduce_once(&ORDER), [0u32; 8]);
    let mut above = ORDER;
    above[0] += 9;
    let mut nine = [0u32; 8];
    nine[0] = 9;
    assert_eq!(reduce_once(&above), nine);
    assert_eq!(reduce_once(&nine), nine);
}

#[test]
fn zero_test_and_select() {
    assert!(is_zero_words(&[0u32; 8]));
    let mut w = [0u32; 8];
    w[7] = 1;
    assert!(!is_zero_words(&w));
    assert_eq!(select_words(&ORDER, &w, false), ORDER);
    assert_eq!(select_words(&ORDER, &w, true), w);
}

#[test]
fn mask_values() {
    assert_eq!(mask(true), 0xffffffff);
    assert_eq!(mask(false), 0);
}

#[test]
fn zeroize_point_if_clears_only_when_set() {
    let mut p = point_from_words([1u32; 8], [2u32; 8], [3u32; 8]);
    zeroize_point_if(false, &mut p);
    assert_eq!(p.x, [1u32; 8]);
    assert_eq!(p.y, [2u32; 8]);
    assert_eq!(p.z, [3u32; 8]);
    zeroize_point_if(true, &mut p);
    assert_eq!(p.x, [0u32; 8]);
    assert_eq!(p.y, [0u32; 8]);
    assert_eq!(p.z, [0u32; 8]);
    assert_eq!(p._pad, [0u32; 8]);
}
