//! Arithmetic modulo the order `n` of the P-256 group on eight-limb
//! integers: reduction, the range check of a scalar, addition, negation,
//! multiplication and inversion. Every result is reduced (below `n`).
use vstd::prelude::*;
use vstd::arithmetic::div_mod::*;
use vstd::arithmetic::power::*;
use vstd::arithmetic::power2::*;
use vstd::bits::*;

use crate::ct::ct_select_u32;
use crate::limbs::{lemma_words_value_bound, lemma_words_value_from_zero, sub_with_borrow, add_with_carry, two_pow_256, words_value, words_value_from, limb_base};

verus! {

/// The order n of the P-256 base point.
pub open spec fn group_order() -> nat {
    0xFFFFFFFF00000000FFFFFFFFFFFFFFFFBCE6FAADA7179E84F3B9CAC2FC632551nat
}

/// The limbs of `n`.
pub fn order_words() -> (w: [u32; 8])
    ensures
        words_value(w@) == group_order(),
{
    let w: [u32; 8] = [
        0xFC632551u32,
        0xF3B9CAC2u32,
        0xA7179E84u32,
        0xBCE6FAADu32,
        0xFFFFFFFFu32,
        0xFFFFFFFFu32,
        0x00000000u32,
        0xFFFFFFFFu32,
    ];
    assert(words_value(w@) == group_order());
    w
}

/// The limbs `a` when `choice` is unset, `b` when it is set, chosen limb by
/// limb without a branch on `choice`.
pub fn select_words(a: &[u32; 8], b: &[u32; 8], choice: bool) -> (r: [u32; 8])
    ensures
        r@ == (if choice {
            b@
        } else {
            a@
        }),
{
    let mut r: [u32; 8] = [0u32; 8];
    let mut i: usize = 0;
    while i < 8
        invariant
            0 <= i <= 8,
            r@.len() == 8,
            forall|t: int| 0 <= t < i ==> r@[t] == (if choice {
                b@[t]
            } else {
                a@[t]
            }),
        decreases 8 - i,
    {
        r[i] = ct_select_u32(a[i], b[i], choice);
        i += 1;
    }
    assert(r@ =~= (if choice {
        b@
    } else {
        a@
    }));
    r
}

/// `a - b` with the borrow out of the top limb:
/// `value(d) - borrow·2^256 == value(a) - value(b)`.
pub fn sub_words(a: &[u32; 8], b: &[u32; 8]) -> (r: ([u32; 8], u32))
    ensures
        r.1 <= 1,
        words_value(r.0@) - r.1 * two_pow_256() == words_value(a@) - words_value(b@),
{
    let (d0, c) = sub_with_borrow(a[0], b[0], 0);
    let (d1, c) = sub_with_borrow(a[1], b[1], c);
    let (d2, c) = sub_with_borrow(a[2], b[2], c);
    let (d3, c) = sub_with_borrow(a[3], b[3], c);
    let (d4, c) = sub_with_borrow(a[4], b[4], c);
    let (d5, c) = sub_with_borrow(a[5], b[5], c);
    let (d6, c) = sub_with_borrow(a[6], b[6], c);
    let (d7, c) = sub_with_borrow(a[7], b[7], c);
    let d: [u32; 8] = [d0, d1, d2, d3, d4, d5, d6, d7];
    (d, c)
}

/// `a + b` with the carry out of the top limb:
/// `value(s) + carry·2^256 == value(a) + value(b)`.
pub fn add_words(a: &[u32; 8], b: &[u32; 8]) -> (r: ([u32; 8], u32))
    ensures
        r.1 <= 1,
        words_value(r.0@) + r.1 * two_pow_256() == words_value(a@) + words_value(b@),
{
    let (s0, c) = add_with_carry(a[0], b[0], 0);
    let (s1, c) = add_with_carry(a[1], b[1], c);
    let (s2, c) = add_with_carry(a[2], b[2], c);
    let (s3, c) = add_with_carry(a[3], b[3], c);
    let (s4, c) = add_with_carry(a[4], b[4], c);
    let (s5, c) = add_with_carry(a[5], b[5], c);
    let (s6, c) = add_with_carry(a[6], b[6], c);
    let (s7, c) = add_with_carry(a[7], b[7], c);
    let s: [u32; 8] = [s0, s1, s2, s3, s4, s5, s6, s7];
    (s, c)
}

/// Whether every limb is zero, by an OR over the limbs (no early exit).
pub fn is_zero_words(a: &[u32; 8]) -> (r: bool)
    ensures
        r == (words_value(a@) == 0),
{
    let mut acc: u32 = 0;
    let mut i: usize = 0;
    while i < 8
        invariant
            0 <= i <= 8,
            (acc == 0) == (forall|t: int| 0 <= t < i ==> a@[t] == 0),
        decreases 8 - i,
    {
        let x: u32 = a[i];
        proof {
            lemma_or_is_zero(acc, x);
        }
        acc = acc | x;
        proof {
            assert((acc == 0) == (forall|t: int| 0 <= t < i + 1 ==> a@[t] == 0)) by {
                if acc == 0 {
                    assert forall|t: int| 0 <= t < i + 1 implies a@[t] == 0 by {
                        if t < i {
                        }
                    }
                }
            }
        }
        i += 1;
    }
    acc == 0
}

proof fn lemma_flags_and(x: u32, y: u32)
    by (bit_vector)
    requires
        x <= 1,
        y <= 1,
    ensures
        ((x & y) == 1) == (x == 1 && y == 1),
{
}

proof fn lemma_flags_or_not(x: u32, y: u32)
    by (bit_vector)
    requires
        x <= 1,
        y <= 1,
    ensures
        ((x | (y ^ 1)) == 1) == (x == 1 || y == 0),
{
}

proof fn lemma_or_is_zero(x: u32, y: u32)
    by (bit_vector)
    ensures
        ((x | y) == 0) == (x == 0 && y == 0),
{
}

/// `value(a) mod m` for a modulus above `2^255`: a 256-bit value is below
/// `2m`, so at most one subtraction of `m` is needed; it is selected without
/// a branch.
pub fn reduce_mod(a: &[u32; 8], m: &[u32; 8]) -> (r: [u32; 8])
    requires
        two_pow_256() < 2 * words_value(m@),
    ensures
        words_value(r@) == words_value(a@) % words_value(m@),
{
    proof {
        lemma_words_value_bound(a@);
    }
    let (d, borrow) = sub_words(a, m);
    let r = select_words(a, &d, borrow == 0);
    proof {
        lemma_words_value_bound(d@);
        if borrow == 0 {
            lemma_fundamental_div_mod_converse(
                words_value(a@) as int,
                words_value(m@) as int,
                1,
                words_value(d@) as int,
            );
        } else {
            lemma_small_mod(words_value(a@), words_value(m@));
        }
    }
    r
}


/// `value(a) mod n`.
pub fn reduce_once(a: &[u32; 8]) -> (r: [u32; 8])
    ensures
        words_value(r@) == words_value(a@) % group_order(),
{
    let n = order_words();
    reduce_mod(a, &n)
}

/// Whether `a` is a valid non-zero scalar: `0 < value(a) < n`.
pub fn check_range_n(a: &[u32; 8]) -> (r: bool)
    ensures
        r == (0 < words_value(a@) < group_order()),
{
    let n = order_words();
    let (_d, borrow) = sub_words(a, &n);
    let zero = is_zero_words(a);
    proof {
        lemma_words_value_bound(_d@);
    }
    let nonzero: u32 = (zero as u32) ^ 1u32;
    proof {
        assert(zero ==> nonzero == 0) by (bit_vector)
            requires
                nonzero == (zero as u32) ^ 1u32,
        ;
        assert(!zero ==> nonzero == 1) by (bit_vector)
            requires
                nonzero == (zero as u32) ^ 1u32,
        ;
    }
    proof {
        lemma_flags_and(nonzero, borrow);
    }
    (nonzero & borrow) == 1
}

/// `(a + b) mod m` for reduced `a` and `b`: one addition and at most one
/// subtraction of `m`, selected without a branch.
pub fn add_reduced_mod(a: &[u32; 8], b: &[u32; 8], m: &[u32; 8]) -> (r: [u32; 8])
    requires
        two_pow_256() < 2 * words_value(m@),
        words_value(a@) < words_value(m@),
        words_value(b@) < words_value(m@),
    ensures
        words_value(r@) == (words_value(a@) + words_value(b@)) % words_value(m@),
        words_value(r@) < words_value(m@),
{
    let (s, carry) = add_words(a, b);
    let (d, borrow) = sub_words(&s, m);
    proof {
        lemma_flags_or_not(carry, borrow);
    }
    let r = select_words(&s, &d, (carry | (borrow ^ 1)) == 1);
    proof {
        lemma_words_value_bound(s@);
        lemma_words_value_bound(d@);
        let total = words_value(a@) + words_value(b@);
        if carry == 1 || borrow == 0 {
            lemma_fundamental_div_mod_converse(
                total as int,
                words_value(m@) as int,
                1,
                words_value(d@) as int,
            );
        } else {
            lemma_small_mod(total as nat, words_value(m@));
        }
    }
    r
}

/// `(a + b) mod n`.
pub fn add_mod_n(a: &[u32; 8], b: &[u32; 8]) -> (r: [u32; 8])
    ensures
        words_value(r@) == (words_value(a@) + words_value(b@)) % group_order(),
{
    let ra = reduce_once(a);
    let rb = reduce_once(b);
    let n = order_words();
    let r = add_reduced_mod(&ra, &rb, &n);
    proof {
        lemma_add_mod_noop(words_value(a@) as int, words_value(b@) as int, group_order() as int);
    }
    r
}

/// `(-a) mod n`, that is `(n - (a mod n)) mod n`: zero for a multiple of `n`.
pub fn neg_mod_n(a: &[u32; 8]) -> (r: [u32; 8])
    ensures
        words_value(r@) == (group_order() - words_value(a@) % group_order()) % (group_order() as int),
{
    let ra = reduce_once(a);
    let n = order_words();
    let (d, _borrow) = sub_words(&n, &ra);
    let zero = is_zero_words(&ra);
    let z: [u32; 8] = [0u32; 8];
    let r = select_words(&d, &z, zero);
    proof {
        lemma_words_value_bound(d@);
        assert(words_value(z@) == 0);
        if !zero {
            lemma_small_mod((group_order() - words_value(ra@)) as nat, group_order());
        }
    }
    r
}


/// The bits of an integer read from the top: taking in bit `k` of the limb
/// `w` doubles the part read so far and adds the bit.
proof fn lemma_take_next_bit(w: u32, k: u32, high: nat)
    requires
        k < 32,
    ensures
        2 * (high * pow2((32 - (k + 1)) as nat) + (w as nat) / pow2((k + 1) as nat)) + ((w >> k)
            & 1u32) == high * pow2((32 - k) as nat) + (w as nat) / pow2(k as nat),
{
    let q = (w as nat) / pow2(k as nat);
    lemma_u32_shr_is_div(w, k);
    assert((w >> k) & 1u32 == (w >> k) % 2) by (bit_vector);
    lemma_pow2_unfold((k + 1) as nat);
    lemma_pow2_pos(k as nat);
    assert(pow2((k + 1) as nat) == pow2(k as nat) * 2);
    lemma_div_denominator(w as int, pow2(k as nat) as int, 2);
    lemma_fundamental_div_mod(q as int, 2);
    lemma_pow2_unfold((32 - k) as nat);
    let p = pow2((32 - (k + 1)) as nat);
    assert(high * (2 * p) == 2 * (high * p)) by (nonlinear_arith);
}

/// The part of the integer read before the first bit of a limb, and after its
/// last bit.
proof fn lemma_limb_bits_ends(w: u32, high: nat)
    ensures
        high * pow2(0) + (w as nat) / pow2(32) == high,
        high * pow2(32) + w == w + limb_base() * high,
        (w as nat) / pow2(0) == w,
{
    lemma2_to64();
    lemma_small_div_converse(w as int, pow2(32) as int);
    assert(pow2(32) == limb_base());
    assert(high * pow2(32) == limb_base() * high) by (nonlinear_arith)
        requires
            pow2(32) == limb_base(),
    ;
}

/// `(a · b) mod m` for a reduced `a`: the bits of `b` are taken from the top;
/// at each bit the accumulator is doubled and, when the bit is set, `a` is
/// added; both steps stay reduced, and the choice is made without a branch.
pub fn mul_reduced_mod(a: &[u32; 8], b: &[u32; 8], m: &[u32; 8]) -> (r: [u32; 8])
    requires
        two_pow_256() < 2 * words_value(m@),
        words_value(a@) < words_value(m@),
    ensures
        words_value(r@) == (words_value(a@) * words_value(b@)) % words_value(m@),
        words_value(r@) < words_value(m@),
{
    let ghost av = words_value(a@) as int;
    let ghost n = words_value(m@) as int;
    let mut r: [u32; 8] = [0u32; 8];
    let mut j: usize = 8;
    proof {
        assert(words_value(r@) == 0);
        assert(words_value_from(b@, 8) == 0);
        assert(av * 0 == 0);
        lemma_small_mod(0, words_value(m@));
    }
    while j > 0
        invariant
            0 <= j <= 8,
            two_pow_256() < 2 * words_value(m@),
            words_value(a@) < words_value(m@),
            av == words_value(a@),
            n == words_value(m@),
            words_value(r@) < words_value(m@),
            words_value(r@) == (av * words_value_from(b@, j as int)) % n,
        decreases j,
    {
        j -= 1;
        let w: u32 = b[j];
        let ghost high = words_value_from(b@, j + 1);
        let ghost mut acc: int = high as int;
        let mut k: u32 = 32;
        proof {
            lemma_limb_bits_ends(w, high);
        }
        while k > 0
            invariant
                0 <= k <= 32,
                two_pow_256() < 2 * words_value(m@),
                words_value(a@) < words_value(m@),
                av == words_value(a@),
                n == words_value(m@),
                acc == high * pow2((32 - k) as nat) + (w as nat) / pow2(k as nat),
                words_value(r@) < words_value(m@),
                words_value(r@) == (av * acc) % n,
            decreases k,
        {
            k -= 1;
            let bit: u32 = (w >> k) & 1u32;
            let d = add_reduced_mod(&r, &r, m);
            let t = add_reduced_mod(&d, a, m);
            r = select_words(&d, &t, bit == 1);
            proof {
                lemma_take_next_bit(w, k, high);
                assert(bit <= 1) by (bit_vector)
                    requires
                        bit == (w >> k) & 1u32,
                ;
                let x = av * acc;
                lemma_add_mod_noop(x, x, n);
                assert(words_value(d@) == (av * (2 * acc)) % n) by {
                    assert(x + x == av * (2 * acc)) by (nonlinear_arith)
                        requires
                            x == av * acc,
                    ;
                }
                lemma_small_mod(av as nat, n as nat);
                lemma_add_mod_noop(av * (2 * acc), av, n);
                assert(words_value(t@) == (av * (2 * acc + 1)) % n) by {
                    assert(av * (2 * acc) + av == av * (2 * acc + 1)) by (nonlinear_arith);
                }
                acc = 2 * acc + bit;
            }
        }
        proof {
            lemma_limb_bits_ends(w, high);
            assert(words_value_from(b@, j as int) == w + limb_base() * high);
        }
    }
    proof {
        lemma_words_value_from_zero(b@);
    }
    r
}

/// `(a · b) mod n`.
pub fn mul_mod_n(a: &[u32; 8], b: &[u32; 8]) -> (r: [u32; 8])
    ensures
        words_value(r@) == (words_value(a@) * words_value(b@)) % group_order(),
{
    let ra = reduce_once(a);
    let n = order_words();
    let r = mul_reduced_mod(&ra, b, &n);
    proof {
        lemma_mul_mod_noop_left(words_value(a@) as int, words_value(b@) as int, group_order() as int);
    }
    r
}


/// The limbs of `n - 2`, the exponent that inverts modulo the prime `n`.
fn order_minus_two_words() -> (w: [u32; 8])
    ensures
        words_value(w@) == group_order() - 2,
{
    let w: [u32; 8] = [
        0xFC63254Fu32,
        0xF3B9CAC2u32,
        0xA7179E84u32,
        0xBCE6FAADu32,
        0xFFFFFFFFu32,
        0xFFFFFFFFu32,
        0x00000000u32,
        0xFFFFFFFFu32,
    ];
    assert(words_value(w@) == group_order() - 2);
    w
}

/// `a^(n-2) mod n`, by square-and-multiply over the bits of `n - 2` from the
/// top; every bit costs one squaring and one multiplication, the product
/// being kept only when the bit is set. As `n` is prime, this is the inverse
/// of `a` modulo `n` when `a` is not a multiple of `n`, and zero when it is.
pub fn inv_mod_n(a: &[u32; 8]) -> (r: [u32; 8])
    ensures
        words_value(r@) == pow(words_value(a@) as int, (group_order() - 2) as nat) % (
        group_order() as int),
{
    let ra = reduce_once(a);
    let nw = order_words();
    let e = order_minus_two_words();
    let ghost av = words_value(ra@) as int;
    let ghost n = group_order() as int;
    let mut r: [u32; 8] = [1u32, 0u32, 0u32, 0u32, 0u32, 0u32, 0u32, 0u32];
    proof {
        assert(words_value(r@) == 1);
        assert(words_value_from(e@, 8) == 0);
        lemma_pow0(av);
        lemma_small_mod(1, group_order());
    }
    let mut j: usize = 8;
    while j > 0
        invariant
            0 <= j <= 8,
            av == words_value(ra@),
            0 <= av < n,
            n == group_order(),
            words_value(nw@) == group_order(),
            words_value(r@) < group_order(),
            words_value(r@) == pow(av, words_value_from(e@, j as int)) % n,
        decreases j,
    {
        j -= 1;
        let w: u32 = e[j];
        let ghost high = words_value_from(e@, j + 1);
        let ghost mut acc: int = high as int;
        let mut k: u32 = 32;
        proof {
            lemma_limb_bits_ends(w, high);
        }
        while k > 0
            invariant
                0 <= k <= 32,
                av == words_value(ra@),
                0 <= av < n,
                n == group_order(),
                words_value(nw@) == group_order(),
                acc == high * pow2((32 - k) as nat) + (w as nat) / pow2(k as nat),
                words_value(r@) < group_order(),
                words_value(r@) == pow(av, acc as nat) % n,
            decreases k,
        {
            k -= 1;
            let bit: u32 = (w >> k) & 1u32;
            let sq = mul_reduced_mod(&r, &r, &nw);
            let t = mul_reduced_mod(&sq, &ra, &nw);
            r = select_words(&sq, &t, bit == 1);
            proof {
                lemma_take_next_bit(w, k, high);
                assert(bit <= 1) by (bit_vector)
                    requires
                        bit == (w >> k) & 1u32,
                ;
                let x = pow(av, acc as nat);
                lemma_mul_mod_noop(x, x, n);
                lemma_pow_adds(av, acc as nat, acc as nat);
                assert(words_value(sq@) == pow(av, (2 * acc) as nat) % n);
                lemma_mul_mod_noop_left(pow(av, (2 * acc) as nat), av, n);
                lemma_pow_adds(av, (2 * acc) as nat, 1);
                lemma_pow1(av);
                assert(words_value(t@) == pow(av, (2 * acc + 1) as nat) % n);
                acc = 2 * acc + bit;
            }
        }
        proof {
            lemma_limb_bits_ends(w, high);
            assert(words_value_from(e@, j as int) == w + limb_base() * high);
        }
    }
    proof {
        lemma_words_value_from_zero(e@);
        lemma_pow_mod_noop(words_value(a@) as int, (group_order() - 2) as nat, n);
    }
    r
}


/// Negation is the additive inverse mod n: `a + (-a) ≡ 0`.
pub proof fn lemma_negation_cancels(a: nat)
    ensures
        (a + (group_order() - a % group_order()) % (group_order() as int)) % (group_order() as int)
            == 0,
{
    let n = group_order() as int;
    let r = a % group_order();
    lemma_mod_bound(a as int, n);
    lemma_add_mod_noop(a as int, n - r, n);
    lemma_mod_twice(a as int, n);
    lemma_mod_self_0(n);
    if r == 0 {
        lemma_mod_self_0(n);
        lemma_small_mod(0, group_order());
    } else {
        lemma_small_mod((n - r) as nat, group_order());
        lemma_small_mod(r, group_order());
        assert(r + (n - r) == n);
    }
}

/// Multiplying a value by `a^(n-2) mod n` gives `a^(n-1) mod n`.
pub proof fn lemma_inverse_times_value(a: nat)
    ensures
        (a * (pow(a as int, (group_order() - 2) as nat) % (group_order() as int))) % (
        group_order() as int) == pow(a as int, (group_order() - 1) as nat) % (group_order() as int),
{
    let n = group_order() as int;
    let e = (group_order() - 2) as nat;
    lemma_mul_mod_noop_right(a as int, pow(a as int, e), n);
    lemma_pow_adds(a as int, 1, e);
    lemma_pow1(a as int);
    assert((1 + e) as nat == (group_order() - 1) as nat);
}

/// Reducing a value that is already below n leaves it unchanged, so a
/// reduced scalar survives a round trip through its 32-byte encoding and
/// the reducing decoder.
pub proof fn lemma_reduced_is_fixed(a: nat)
    requires
        a < group_order(),
    ensures
        a % group_order() == a,
{
    lemma_small_mod(a, group_order());
}

} // verus!
