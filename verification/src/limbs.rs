//! 256-bit integers held as eight little-endian `u32` limbs, their big-endian
//! byte encoding, and the carry/borrow steps used by the modular arithmetic.
use vstd::prelude::*;

verus! {

/// 2^32, the weight of one limb.
pub open spec fn limb_base() -> int {
    0x1_0000_0000int
}

/// The integer held by eight little-endian limbs: `w[0] + w[1]·2^32 + … + w[7]·2^224`.
pub open spec fn words_value(w: Seq<u32>) -> nat {
    (w[0] + w[1] * 0x1_0000_0000int + w[2] * 0x1_0000_0000_0000_0000int
        + w[3] * 0x1_0000_0000_0000_0000_0000_0000int
        + w[4] * 0x1_0000_0000_0000_0000_0000_0000_0000_0000int
        + w[5] * 0x1_0000_0000_0000_0000_0000_0000_0000_0000_0000_0000int
        + w[6] * 0x1_0000_0000_0000_0000_0000_0000_0000_0000_0000_0000_0000_0000int
        + w[7] * 0x1_0000_0000_0000_0000_0000_0000_0000_0000_0000_0000_0000_0000_0000_0000int) as nat
}

/// 2^256: every eight-limb value lies below it.
pub open spec fn two_pow_256() -> int {
    0x1_0000_0000_0000_0000_0000_0000_0000_0000_0000_0000_0000_0000_0000_0000_0000_0000int
}

/// The value of the limbs `w[i..8]`, read with `w[i]` as the least significant.
pub open spec fn words_value_from(w: Seq<u32>, i: int) -> nat
    decreases 8 - i,
{
    if i >= 8 {
        0
    } else {
        (w[i] + limb_base() * words_value_from(w, i + 1)) as nat
    }
}

pub proof fn lemma_words_value_from_zero(w: Seq<u32>)
    ensures
        words_value_from(w, 0) == words_value(w),
{
    reveal_with_fuel(words_value_from, 9);
}

proof fn lemma_words_value_from_injective(a: Seq<u32>, b: Seq<u32>, i: int)
    requires
        0 <= i <= 8,
        words_value_from(a, i) == words_value_from(b, i),
    ensures
        forall|j: int| i <= j < 8 ==> a[j] == b[j],
    decreases 8 - i,
{
    if i < 8 {
        let v = words_value_from(a, i) as int;
        vstd::arithmetic::div_mod::lemma_fundamental_div_mod_converse(
            v,
            limb_base(),
            words_value_from(a, i + 1) as int,
            a[i] as int,
        );
        vstd::arithmetic::div_mod::lemma_fundamental_div_mod_converse(
            v,
            limb_base(),
            words_value_from(b, i + 1) as int,
            b[i] as int,
        );
        lemma_words_value_from_injective(a, b, i + 1);
    }
}

/// Eight limbs are determined by the integer they denote: two limb
/// sequences with the same value are the same.
pub proof fn lemma_words_value_injective(a: Seq<u32>, b: Seq<u32>)
    requires
        a.len() == 8,
        b.len() == 8,
        words_value(a) == words_value(b),
    ensures
        a == b,
{
    lemma_words_value_from_zero(a);
    lemma_words_value_from_zero(b);
    lemma_words_value_from_injective(a, b, 0);
    assert(a =~= b);
}

pub proof fn lemma_words_value_bound(w: Seq<u32>)
    requires
        w.len() == 8,
    ensures
        words_value(w) < two_pow_256(),
{
    assert(w[0] < limb_base() && w[1] < limb_base() && w[2] < limb_base() && w[3] < limb_base()
        && w[4] < limb_base() && w[5] < limb_base() && w[6] < limb_base() && w[7] < limb_base());
}

/// One step of a carry chain: `a + b + carry = sum + carry_out·2^32`.
pub fn add_with_carry(a: u32, b: u32, carry: u32) -> (r: (u32, u32))
    requires
        carry <= 1,
    ensures
        r.1 <= 1,
        r.0 + r.1 * limb_base() == a + b + carry,
{
    let t: u64 = a as u64 + b as u64 + carry as u64;
    ((t % 0x1_0000_0000) as u32, (t / 0x1_0000_0000) as u32)
}

/// One step of a borrow chain: `a - b - borrow = diff - borrow_out·2^32`.
pub fn sub_with_borrow(a: u32, b: u32, borrow: u32) -> (r: (u32, u32))
    requires
        borrow <= 1,
    ensures
        r.1 <= 1,
        r.0 - r.1 * limb_base() == a - b - borrow,
{
    let t: u64 = a as u64 + 0x1_0000_0000u64 - b as u64 - borrow as u64;
    ((t % 0x1_0000_0000) as u32, (1 - t / 0x1_0000_0000) as u32)
}


/// The big-endian 32-bit word made of `b[i..i+4]`.
pub open spec fn be_word(b: Seq<u8>, i: int) -> u32 {
    (b[i] * 0x100_0000int + b[i + 1] * 0x1_0000int + b[i + 2] * 0x100int + b[i + 3]) as u32
}

/// The `k`-th byte of `x`, counting from the most significant (`k` in `0..4`).
pub open spec fn word_byte_be(x: u32, k: int) -> u8 {
    if k == 0 {
        (x >> 24u32) as u8
    } else if k == 1 {
        ((x >> 16u32) & 0xffu32) as u8
    } else if k == 2 {
        ((x >> 8u32) & 0xffu32) as u8
    } else {
        (x & 0xffu32) as u8
    }
}

/// The limbs of a 32-byte big-endian integer: limb `k` is the big-endian
/// word at byte offset `28 - 4k`, so the last four bytes form the least
/// significant limb.
pub open spec fn words_of_be_bytes(b: Seq<u8>) -> Seq<u32> {
    Seq::new(8, |k: int| be_word(b, 28 - 4 * k))
}

/// The 32-byte big-endian encoding of eight little-endian limbs: byte `j` is
/// byte `j % 4` (from the most significant) of limb `7 - j / 4`.
pub open spec fn be_bytes_of_words(w: Seq<u32>) -> Seq<u8> {
    Seq::new(32, |j: int| word_byte_be(w[7 - j / 4], j % 4))
}

/// The integer that the first `i` bytes of `b` denote, read big-endian.
pub open spec fn be_value_prefix(b: Seq<u8>, i: int) -> nat
    decreases i,
{
    if i <= 0 {
        0
    } else {
        (be_value_prefix(b, i - 1) * 256 + b[i - 1]) as nat
    }
}

/// The integer that a byte string denotes, read big-endian.
pub open spec fn be_value(b: Seq<u8>) -> nat {
    be_value_prefix(b, b.len() as int)
}

proof fn lemma_be_word_bits(b0: u8, b1: u8, b2: u8, b3: u8)
    by (bit_vector)
    ensures
        ((b0 as u32) << 24u32) | ((b1 as u32) << 16u32) | ((b2 as u32) << 8u32) | (b3 as u32)
            == (b0 * 0x100_0000int + b1 * 0x1_0000int + b2 * 0x100int + b3) as u32,
{
}

/// Reads a 32-byte big-endian integer into eight little-endian limbs.
pub fn words_from_be_bytes(b: &[u8; 32]) -> (w: [u32; 8])
    ensures
        w@ == words_of_be_bytes(b@),
{
    let mut w: [u32; 8] = [0u32; 8];
    let mut k: usize = 0;
    while k < 8
        invariant
            0 <= k <= 8,
            w@.len() == 8,
            forall|t: int| 0 <= t < k ==> w@[t] == words_of_be_bytes(b@)[t],
        decreases 8 - k,
    {
        let i: usize = 28 - 4 * k;
        let x: u32 = ((b[i] as u32) << 24u32) | ((b[i + 1] as u32) << 16u32) | ((b[i + 2] as u32)
            << 8u32) | (b[i + 3] as u32);
        proof {
            lemma_be_word_bits(b[i as int], b[i + 1], b[i + 2], b[i + 3]);
        }
        w[k] = x;
        k += 1;
    }
    assert(w@ =~= words_of_be_bytes(b@));
    w
}

/// Writes eight little-endian limbs as a 32-byte big-endian integer.
pub fn be_bytes_from_words(w: &[u32; 8]) -> (b: [u8; 32])
    ensures
        b@ == be_bytes_of_words(w@),
{
    let mut b: [u8; 32] = [0u8; 32];
    let mut k: usize = 0;
    while k < 8
        invariant
            0 <= k <= 8,
            b@.len() == 32,
            forall|j: int| 0 <= j < 4 * k ==> b@[j] == be_bytes_of_words(w@)[j],
        decreases 8 - k,
    {
        let x: u32 = w[7 - k];
        let i: usize = 4 * k;
        b[i] = (x >> 24u32) as u8;
        b[i + 1] = ((x >> 16u32) & 0xffu32) as u8;
        b[i + 2] = ((x >> 8u32) & 0xffu32) as u8;
        b[i + 3] = (x & 0xffu32) as u8;
        k += 1;
    }
    assert(b@ =~= be_bytes_of_words(w@));
    b
}


proof fn lemma_word_recompose(x: u32)
    by (bit_vector)
    ensures
        x == ((x >> 24u32) as u8) * 0x100_0000int + (((x >> 16u32) & 0xffu32) as u8) * 0x1_0000int
            + (((x >> 8u32) & 0xffu32) as u8) * 0x100int + ((x & 0xffu32) as u8),
{
}

proof fn lemma_word_bytes_of_be_word(b0: u8, b1: u8, b2: u8, b3: u8)
    by (bit_vector)
    ensures
        ({
            let x = (b0 * 0x100_0000int + b1 * 0x1_0000int + b2 * 0x100int + b3) as u32;
            &&& (x >> 24u32) as u8 == b0
            &&& ((x >> 16u32) & 0xffu32) as u8 == b1
            &&& ((x >> 8u32) & 0xffu32) as u8 == b2
            &&& (x & 0xffu32) as u8 == b3
        }),
{
}

proof fn lemma_be_value_prefix_word(b: Seq<u8>, i: int)
    requires
        0 <= i,
        i + 4 <= b.len(),
    ensures
        be_value_prefix(b, i + 4) == be_value_prefix(b, i) * 0x1_0000_0000int + be_word(b, i),
{
    reveal_with_fuel(be_value_prefix, 5);
}

/// Reading bytes into limbs keeps the integer: the limbs denote the same
/// number as the big-endian bytes.
pub proof fn lemma_words_of_be_bytes_value(b: Seq<u8>)
    requires
        b.len() == 32,
    ensures
        words_value(words_of_be_bytes(b)) == be_value(b),
{
    let w = words_of_be_bytes(b);
    assert(be_value_prefix(b, 0) == 0);
    lemma_be_value_prefix_word(b, 0);
    lemma_be_value_prefix_word(b, 4);
    lemma_be_value_prefix_word(b, 8);
    lemma_be_value_prefix_word(b, 12);
    lemma_be_value_prefix_word(b, 16);
    lemma_be_value_prefix_word(b, 20);
    lemma_be_value_prefix_word(b, 24);
    lemma_be_value_prefix_word(b, 28);
    assert(w[7] == be_word(b, 0) && w[6] == be_word(b, 4) && w[5] == be_word(b, 8) && w[4]
        == be_word(b, 12) && w[3] == be_word(b, 16) && w[2] == be_word(b, 20) && w[1] == be_word(
        b,
        24,
    ) && w[0] == be_word(b, 28));
}

/// Writing limbs as bytes keeps the integer.
pub proof fn lemma_be_bytes_of_words_value(w: Seq<u32>)
    requires
        w.len() == 8,
    ensures
        be_value(be_bytes_of_words(w)) == words_value(w),
{
    lemma_words_round_trip(w);
    lemma_words_of_be_bytes_value(be_bytes_of_words(w));
}

/// Bytes to limbs and back gives the bytes again.
pub proof fn lemma_be_bytes_round_trip(b: Seq<u8>)
    requires
        b.len() == 32,
    ensures
        be_bytes_of_words(words_of_be_bytes(b)) == b,
{
    assert forall|j: int| 0 <= j < 32 implies be_bytes_of_words(words_of_be_bytes(b))[j] == b[j] by {
        let k = 7 - j / 4;
        let i = 28 - 4 * k;
        lemma_word_bytes_of_be_word(b[i], b[i + 1], b[i + 2], b[i + 3]);
    }
    assert(be_bytes_of_words(words_of_be_bytes(b)) =~= b);
}

/// Limbs to bytes and back gives the limbs again.
pub proof fn lemma_words_round_trip(w: Seq<u32>)
    requires
        w.len() == 8,
    ensures
        words_of_be_bytes(be_bytes_of_words(w)) == w,
{
    assert forall|k: int| 0 <= k < 8 implies words_of_be_bytes(be_bytes_of_words(w))[k] == w[k] by {
        lemma_word_recompose(w[k]);
    }
    assert(words_of_be_bytes(be_bytes_of_words(w)) =~= w);
}


/// The prime p of the field over which P-256 is defined.
pub open spec fn field_prime() -> nat {
    0xFFFFFFFF00000001000000000000000000000000FFFFFFFFFFFFFFFFFFFFFFFFnat
}

/// p is the generalised Mersenne prime `2^256 - 2^224 + 2^192 + 2^96 - 1`.
pub proof fn lemma_field_prime_form()
    ensures
        field_prime() == two_pow_256() - 0x1_0000_0000_0000_0000_0000_0000_0000_0000_0000_0000_0000_0000_0000_0000int
            + 0x1_0000_0000_0000_0000_0000_0000_0000_0000_0000_0000_0000_0000int + 0x1_0000_0000_0000_0000_0000_0000int - 1,
{
}

/// The limbs of 1 in the Montgomery form that the backend uses for field
/// elements, that is of `2^256 mod p`.
pub open spec fn montgomery_one_limbs() -> Seq<u32> {
    seq![1u32, 0, 0, 0xffffffff, 0xffffffff, 0xffffffff, 0xfffffffe, 0]
}

/// The Montgomery one is `2^256 mod p`.
pub proof fn lemma_montgomery_one_value()
    ensures
        words_value(montgomery_one_limbs()) == two_pow_256() % (field_prime() as int),
{
    assert(two_pow_256() == 1 * field_prime() + words_value(montgomery_one_limbs()));
    vstd::arithmetic::div_mod::lemma_fundamental_div_mod_converse(
        two_pow_256(),
        field_prime() as int,
        1,
        words_value(montgomery_one_limbs()) as int,
    );
}

} // verus!
