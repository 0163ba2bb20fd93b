//! The leaving of Montgomery form for field elements mod p: the backend
//! stores a coordinate X as `X·2^256 mod p`, and the coordinate itself is
//! recovered by one multiplication by the inverse of `2^256` mod p.
use vstd::prelude::*;
use vstd::arithmetic::div_mod::*;

use crate::limbs::{field_prime, two_pow_256, words_value};
use crate::scalar_mod_n::mul_reduced_mod;

verus! {

/// The inverse of `2^256` modulo p.
pub open spec fn montgomery_r_inverse() -> nat {
    0xfffffffe00000003fffffffd0000000200000001fffffffe0000000300000000nat
}

/// `montgomery_r_inverse` is the inverse of `2^256` modulo p.
pub proof fn lemma_montgomery_r_inverse()
    ensures
        (two_pow_256() * montgomery_r_inverse()) % (field_prime() as int) == 1,
        montgomery_r_inverse() < field_prime(),
{
    lemma_fundamental_div_mod_converse(
        two_pow_256() * montgomery_r_inverse(),
        field_prime() as int,
        0xffffffff00000002000000000000000000000001000000000000000000000001int,
        1,
    );
}

/// The limbs of p.
pub fn prime_words() -> (w: [u32; 8])
    ensures
        words_value(w@) == field_prime(),
{
    let w: [u32; 8] = [
        0xffffffffu32,
        0xffffffffu32,
        0xffffffffu32,
        0u32,
        0u32,
        0u32,
        1u32,
        0xffffffffu32,
    ];
    assert(words_value(w@) == field_prime());
    w
}

fn r_inverse_words() -> (w: [u32; 8])
    ensures
        words_value(w@) == montgomery_r_inverse(),
{
    let w: [u32; 8] = [
        0u32,
        3u32,
        0xfffffffeu32,
        1u32,
        2u32,
        0xfffffffdu32,
        3u32,
        0xfffffffeu32,
    ];
    assert(words_value(w@) == montgomery_r_inverse());
    w
}

/// The field element that Montgomery-form limbs stand for:
/// `value(a) · 2^-256 mod p`.
pub fn from_montgomery(a: &[u32; 8]) -> (r: [u32; 8])
    ensures
        words_value(r@) == (words_value(a@) * montgomery_r_inverse()) % field_prime(),
        words_value(r@) < field_prime(),
{
    let p = prime_words();
    let rinv = r_inverse_words();
    proof {
        lemma_montgomery_r_inverse();
    }
    let r = mul_reduced_mod(&rinv, a, &p);
    proof {
        assert(montgomery_r_inverse() * words_value(a@) == words_value(a@) * montgomery_r_inverse())
            by (nonlinear_arith);
    }
    r
}

/// Leaving Montgomery form undoes entering it: for a reduced `x`,
/// `((x · 2^256) mod p) · 2^-256 mod p == x`.
pub proof fn lemma_from_montgomery_inverts(x: nat)
    requires
        x < field_prime(),
    ensures
        (((x * two_pow_256()) % (field_prime() as int)) * montgomery_r_inverse()) % (
        field_prime() as int) == x,
{
    let p = field_prime() as int;
    let rinv = montgomery_r_inverse() as int;
    lemma_montgomery_r_inverse();
    lemma_mul_mod_noop_left(x * two_pow_256(), rinv, p);
    assert(x * two_pow_256() * rinv == x * (two_pow_256() * rinv)) by (nonlinear_arith);
    lemma_mul_mod_noop_right(x as int, two_pow_256() * rinv, p);
    lemma_small_mod(x, field_prime());
}


/// The constant b of the P-256 curve equation `y^2 = x^3 - 3x + b` over p.
pub open spec fn curve_b() -> int {
    0x5ac635d8aa3a93e7b3ebbd55769886bc651d06b0cc53b0f63bce3c3e27d2604bint
}

/// Whether `(x, y)` satisfies the P-256 curve equation
/// `y^2 ≡ x^3 - 3x + b (mod p)`.
pub open spec fn on_curve(x: int, y: int) -> bool {
    (y * y) % (field_prime() as int) == (x * x * x - 3 * x + curve_b()) % (field_prime() as int)
}

} // verus!
