//! Scalar and point types of the Cortex-M4 backend as seen by the embassy
//! crypto driver, with the conversions at the driver boundary, the scalar
//! arithmetic mod n and the defined fallbacks of the point operations.
use vstd::prelude::*;
use vstd::arithmetic::power::pow;

use crate::field_mod_p::{montgomery_r_inverse, on_curve};
use crate::traits::affine::{
    generator_x, generator_x_limbs, generator_y, generator_y_limbs, lemma_generator_coordinates,
    lemma_generator_on_curve,
};
use crate::limbs::{field_prime, 
    be_bytes_from_words, be_bytes_of_words, be_value, lemma_words_of_be_bytes_value,
    montgomery_one_limbs, words_from_be_bytes, words_of_be_bytes, words_value,
};
use crate::scalar_mod_n::{
    add_mod_n, group_order, inv_mod_n, is_zero_words, mul_mod_n, neg_mod_n, reduce_once,
};

verus! {

/// Backend marker type for the Cortex-M4 P-256 implementation.
pub struct P256CortexM4;

/// Opaque scalar type (64 bytes).
///
/// The active data is `inner`: the scalar value, little-endian limb order,
/// in plain (not Montgomery) representation. Values produced by the
/// arithmetic are reduced mod n; the arithmetic also reduces its inputs, so
/// an unreduced value read from canonical bytes is taken mod n. The padding
/// brings the type to the size that the driver expects.
#[derive(Clone, Copy)]
pub struct Scalar {
    pub inner: [u32; 8],
    pub _pad: [u32; 8],
}

/// Opaque projective point type (128 bytes).
///
/// The active data is three `[u32; 8]` words (x, y, z), Jacobian coordinates
/// in Montgomery form. The padding brings the type to the size that the
/// driver expects.
#[derive(Clone, Copy)]
pub struct ProjectivePoint {
    pub x: [u32; 8],
    pub y: [u32; 8],
    pub z: [u32; 8],
    pub _pad: [u32; 8],
}

/// A scalar as the driver exchanges it: 32 bytes, big-endian.
#[derive(Clone, Copy)]
pub struct P256Scalar(pub [u8; 32]);

/// An affine point as the driver exchanges it: canonical big-endian
/// coordinates.
#[derive(Clone, Copy)]
pub struct P256AffinePoint {
    pub x: [u8; 32],
    pub y: [u8; 32],
}

/// Eight zero limbs.
pub open spec fn zero_limbs() -> Seq<u32> {
    seq![0u32; 8]
}

impl Scalar {
    /// The integer that the active limbs denote.
    pub open spec fn value(self) -> nat {
        words_value(self.inner@)
    }
}

impl ProjectivePoint {
    /// All three coordinates are zero: the identity as this backend writes it.
    pub open spec fn is_zero_point(self) -> bool {
        self.x@ == zero_limbs() && self.y@ == zero_limbs() && self.z@ == zero_limbs()
    }
}

/// The SEC secp256r1 base point, canonical big-endian x coordinate.
pub open spec fn generator_x_bytes() -> Seq<u8> {
    seq![
        0x6bu8, 0x17, 0xd1, 0xf2, 0xe1, 0x2c, 0x42, 0x47, 0xf8, 0xbc, 0xe6, 0xe5, 0x63, 0xa4,
        0x40, 0xf2, 0x77, 0x03, 0x7d, 0x81, 0x2d, 0xeb, 0x33, 0xa0, 0xf4, 0xa1, 0x39, 0x45,
        0xd8, 0x98, 0xc2, 0x96,
    ]
}

/// The SEC secp256r1 base point, canonical big-endian y coordinate.
pub open spec fn generator_y_bytes() -> Seq<u8> {
    seq![
        0x4fu8, 0xe3, 0x42, 0xe2, 0xfe, 0x1a, 0x7f, 0x9b, 0x8e, 0xe7, 0xeb, 0x4a, 0x7c, 0x0f,
        0x9e, 0x16, 0x2b, 0xce, 0x33, 0x57, 0x6b, 0x31, 0x5e, 0xce, 0xcb, 0xb6, 0x40, 0x68,
        0x37, 0xbf, 0x51, 0xf5,
    ]
}

/// The canonical generator bytes, read big-endian, are the coordinates of
/// the base point G: they equal `Gx` and `Gy`, they satisfy the curve
/// equation, and they are the coordinates that the Montgomery-form limbs of
/// `traits::AffinePoint::generator` stand for.
pub proof fn lemma_canonical_generator_is_base_point()
    ensures
        be_value(generator_x_bytes()) == generator_x(),
        be_value(generator_y_bytes()) == generator_y(),
        on_curve(be_value(generator_x_bytes()) as int, be_value(generator_y_bytes()) as int),
        be_value(generator_x_bytes()) == (words_value(generator_x_limbs()) * montgomery_r_inverse())
            % field_prime(),
        be_value(generator_y_bytes()) == (words_value(generator_y_limbs()) * montgomery_r_inverse())
            % field_prime(),
{
    lemma_words_of_be_bytes_value(generator_x_bytes());
    lemma_words_of_be_bytes_value(generator_y_bytes());
    assert(words_value(words_of_be_bytes(generator_x_bytes())) == generator_x());
    assert(words_value(words_of_be_bytes(generator_y_bytes())) == generator_y());
    lemma_generator_on_curve();
    lemma_generator_coordinates();
}

/// SEC secp256r1 base point, canonical big-endian coordinates.
pub fn generator() -> (r: P256AffinePoint)
    ensures
        r.x@ == generator_x_bytes(),
        r.y@ == generator_y_bytes(),
        be_value(r.x@) == generator_x(),
        be_value(r.y@) == generator_y(),
        on_curve(be_value(r.x@) as int, be_value(r.y@) as int),
{
    let r = P256AffinePoint {
        x: [
            0x6b, 0x17, 0xd1, 0xf2, 0xe1, 0x2c, 0x42, 0x47, 0xf8, 0xbc, 0xe6, 0xe5, 0x63, 0xa4,
            0x40, 0xf2, 0x77, 0x03, 0x7d, 0x81, 0x2d, 0xeb, 0x33, 0xa0, 0xf4, 0xa1, 0x39, 0x45,
            0xd8, 0x98, 0xc2, 0x96,
        ],
        y: [
            0x4f, 0xe3, 0x42, 0xe2, 0xfe, 0x1a, 0x7f, 0x9b, 0x8e, 0xe7, 0xeb, 0x4a, 0x7c, 0x0f,
            0x9e, 0x16, 0x2b, 0xce, 0x33, 0x57, 0x6b, 0x31, 0x5e, 0xce, 0xcb, 0xb6, 0x40, 0x68,
            0x37, 0xbf, 0x51, 0xf5,
        ],
    };
    assert(r.x@ =~= generator_x_bytes());
    assert(r.y@ =~= generator_y_bytes());
    proof {
        lemma_canonical_generator_is_base_point();
    }
    r
}

fn endian_swap_32(out: &mut [u8; 32], inp: &[u32; 8])
    ensures
        final(out)@ == be_bytes_of_words(inp@),
{
    *out = be_bytes_from_words(inp);
}

fn endian_swap_words(out: &mut [u32; 8], inp: &[u8; 32])
    ensures
        final(out)@ == words_of_be_bytes(inp@),
{
    *out = words_from_be_bytes(inp);
}

/// A scalar with the given limbs and zero padding.
pub fn scalar_from_words(inner: [u32; 8]) -> (r: Scalar)
    ensures
        r.inner == inner,
        r._pad@ == zero_limbs(),
{
    let r = Scalar { inner, _pad: [0u32; 8] };
    assert(r._pad@ =~= zero_limbs());
    r
}

/// A projective point with the given coordinates and zero padding.
pub fn point_from_words(x: [u32; 8], y: [u32; 8], z: [u32; 8]) -> (r: ProjectivePoint)
    ensures
        r.x == x,
        r.y == y,
        r.z == z,
        r._pad@ == zero_limbs(),
{
    let r = ProjectivePoint { x, y, z, _pad: [0u32; 8] };
    assert(r._pad@ =~= zero_limbs());
    r
}

/// All-ones mask when `cond` holds, all-zeros otherwise. Branchless.
pub fn mask(cond: bool) -> (r: u32)
    ensures
        r == (if cond {
            0xffff_ffffu32
        } else {
            0u32
        }),
{
    0u32.wrapping_sub(cond as u32)
}

proof fn lemma_and_mask(v: u32, m: u32)
    by (bit_vector)
    ensures
        m == 0xffff_ffffu32 ==> v & m == v,
        m == 0u32 ==> v & m == 0u32,
{
}

/// Branchless zeroing of a projective point when `cond` holds (used to apply
/// the defined fallbacks without data-dependent branches).
pub fn zeroize_point_if(cond: bool, p: &mut ProjectivePoint)
    ensures
        final(p)._pad == old(p)._pad,
        cond ==> final(p).is_zero_point(),
        !cond ==> final(p).x == old(p).x && final(p).y == old(p).y && final(p).z == old(p).z,
{
    // Keep every limb when `cond` is unset, clear it when `cond` is set.
    let m = mask(!cond);
    let mut i: usize = 0;
    while i < 8
        invariant
            0 <= i <= 8,
            m == (if cond {
                0u32
            } else {
                0xffff_ffffu32
            }),
            p._pad == old(p)._pad,
            p.x@.len() == 8 && p.y@.len() == 8 && p.z@.len() == 8,
            forall|t: int|
                i <= t < 8 ==> p.x@[t] == old(p).x@[t] && p.y@[t] == old(p).y@[t] && p.z@[t]
                    == old(p).z@[t],
            cond ==> forall|t: int| 0 <= t < i ==> p.x@[t] == 0 && p.y@[t] == 0 && p.z@[t] == 0,
            !cond ==> forall|t: int|
                0 <= t < i ==> p.x@[t] == old(p).x@[t] && p.y@[t] == old(p).y@[t] && p.z@[t]
                    == old(p).z@[t],
        decreases 8 - i,
    {
        let xi: u32 = p.x[i];
        let yi: u32 = p.y[i];
        let zi: u32 = p.z[i];
        proof {
            lemma_and_mask(xi, m);
            lemma_and_mask(yi, m);
            lemma_and_mask(zi, m);
        }
        p.x[i] = xi & m;
        p.y[i] = yi & m;
        p.z[i] = zi & m;
        i += 1;
    }
    if cond {
        assert(p.x@ =~= zero_limbs());
        assert(p.y@ =~= zero_limbs());
        assert(p.z@ =~= zero_limbs());
    } else {
        assert(p.x@ =~= old(p).x@);
        assert(p.y@ =~= old(p).y@);
        assert(p.z@ =~= old(p).z@);
    }
}

/// Encoding a canonical point as uncompressed SEC1 and reading the
/// coordinates back out of such an encoding gives the point again.
pub proof fn lemma_sec1_uncompressed_round_trip(p: P256AffinePoint)
    ensures
        (seq![0x04u8] + p.x@ + p.y@).subrange(1, 33) == p.x@,
        (seq![0x04u8] + p.x@ + p.y@).subrange(33, 65) == p.y@,
{
    assert((seq![0x04u8] + p.x@ + p.y@).subrange(1, 33) =~= p.x@);
    assert((seq![0x04u8] + p.x@ + p.y@).subrange(33, 65) =~= p.y@);
}

/// Which computation a linear combination `k1·P1 + k2·P2` comes down to.
#[derive(Clone, Copy, Debug, PartialEq, Eq)]
pub enum LincombRoute {
    /// `P1` is the identity: the result is `k2·P2`.
    SecondOnly,
    /// `P2` is the identity (and `P1` is not): the result is `k1·P1`.
    FirstOnly,
    /// Neither point is the identity: both products are combined in one
    /// pass.
    Both,
}

impl P256CortexM4 {
    /// Reads a canonical big-endian scalar into limbs (no reduction).
    pub fn scalar_from_canonical(s: &P256Scalar) -> (r: Scalar)
        ensures
            r.inner@ == words_of_be_bytes(s.0@),
            r.value() == be_value(s.0@),
            r._pad@ == zero_limbs(),
    {
        let mut le: [u32; 8] = [0u32; 8];
        endian_swap_words(&mut le, &s.0);
        proof {
            lemma_words_of_be_bytes_value(s.0@);
        }
        scalar_from_words(le)
    }

    /// Writes the scalar's limbs as a canonical big-endian scalar.
    pub fn scalar_to_canonical(s: &Scalar) -> (r: P256Scalar)
        ensures
            r.0@ == be_bytes_of_words(s.inner@),
    {
        let mut be: [u8; 32] = [0u8; 32];
        endian_swap_32(&mut be, &s.inner);
        P256Scalar(be)
    }

    /// The uncompressed SEC1 encoding `0x04 || x || y` of a canonical point,
    /// which is what the backend validates (range and curve equation) and
    /// converts to Montgomery form.
    pub fn point_to_sec1_uncompressed(p: &P256AffinePoint) -> (r: [u8; 65])
        ensures
            r@ == seq![0x04u8] + p.x@ + p.y@,
    {
        let mut sec1: [u8; 65] = [0u8; 65];
        sec1[0] = 0x04;
        let mut i: usize = 0;
        while i < 32
            invariant
                0 <= i <= 32,
                sec1@.len() == 65,
                sec1@[0] == 0x04u8,
                forall|t: int| 0 <= t < i ==> sec1@[1 + t] == p.x@[t] && sec1@[33 + t] == p.y@[t],
            decreases 32 - i,
        {
            sec1[1 + i] = p.x[i];
            sec1[33 + i] = p.y[i];
            i += 1;
        }
        assert(sec1@ =~= seq![0x04u8] + p.x@ + p.y@);
        sec1
    }

    /// The projective point for a canonical point, from what the backend's
    /// SEC1 decoder returned: the validity flag and the Montgomery-form
    /// coordinates. Defined fallback: invalid input decodes to the identity.
    /// Input is public in every intended use (key parsing, verification),
    /// so the branch is not a constant-time concern.
    pub fn point_from_decoded(valid: bool, x: [u32; 8], y: [u32; 8]) -> (r: ProjectivePoint)
        ensures
            r._pad@ == zero_limbs(),
            !valid ==> r.is_zero_point(),
            valid ==> r.x == x && r.y == y && r.z@ == montgomery_one_limbs(),
    {
        if !valid {
            return Self::projective_identity();
        }
        let one_z: [u32; 8] = [1u32, 0, 0, 0xffff_ffff, 0xffff_ffff, 0xffff_ffff, 0xffff_fffe, 0];
        assert(one_z@ =~= montgomery_one_limbs());
        point_from_words(x, y, one_z)
    }

    /// The canonical point held by the uncompressed SEC1 encoding that the
    /// backend produced from the affine form of a point: the 32 bytes after
    /// the tag are x, the last 32 are y. The identity converts to affine
    /// (0, 0), so it comes out as the all-zero encoding.
    pub fn point_from_sec1_uncompressed(sec1: &[u8; 65]) -> (r: P256AffinePoint)
        ensures
            r.x@ == sec1@.subrange(1, 33),
            r.y@ == sec1@.subrange(33, 65),
    {
        let mut x: [u8; 32] = [0u8; 32];
        let mut y: [u8; 32] = [0u8; 32];
        let mut i: usize = 0;
        while i < 32
            invariant
                0 <= i <= 32,
                x@.len() == 32,
                y@.len() == 32,
                forall|t: int| 0 <= t < i ==> x@[t] == sec1@[1 + t] && y@[t] == sec1@[33 + t],
            decreases 32 - i,
        {
            x[i] = sec1[1 + i];
            y[i] = sec1[33 + i];
            i += 1;
        }
        assert(x@ =~= sec1@.subrange(1, 33));
        assert(y@ =~= sec1@.subrange(33, 65));
        P256AffinePoint { x, y }
    }

    /// Whether the scalar's limbs are all zero. Branchless OR-reduce.
    pub fn scalar_is_zero(a: &Scalar) -> (r: bool)
        ensures
            r == (a.value() == 0),
            r == (a.inner@ == zero_limbs()),
    {
        let r = is_zero_words(&a.inner);
        proof {
            if a.value() == 0 {
                assert(a.inner@ =~= zero_limbs());
            }
        }
        r
    }

    /// `(a + b) mod n`.
    pub fn scalar_add(a: &Scalar, b: &Scalar) -> (r: Scalar)
        ensures
            r.value() == (a.value() + b.value()) % group_order(),
            r._pad@ == zero_limbs(),
    {
        scalar_from_words(add_mod_n(&a.inner, &b.inner))
    }

    /// `(a · b) mod n`.
    pub fn scalar_mul(a: &Scalar, b: &Scalar) -> (r: Scalar)
        ensures
            r.value() == (a.value() * b.value()) % group_order(),
            r._pad@ == zero_limbs(),
    {
        scalar_from_words(mul_mod_n(&a.inner, &b.inner))
    }

    /// `(-a) mod n`.
    pub fn scalar_neg(a: &Scalar) -> (r: Scalar)
        ensures
            r.value() == (group_order() - a.value() % group_order()) % (group_order() as int),
            r._pad@ == zero_limbs(),
    {
        scalar_from_words(neg_mod_n(&a.inner))
    }

    /// The inverse mod n, `a^(n-2) mod n`. Defined fallback: the inverse of
    /// 0 is 0; the result is cleared by a mask rather than a branch
    /// (constant-time with respect to the scalar).
    pub fn scalar_inv(a: &Scalar) -> (r: Scalar)
        ensures
            a.value() == 0 ==> r.value() == 0,
            a.value() != 0 ==> r.value() == pow(a.value() as int, (group_order() - 2) as nat) % (
            group_order() as int),
            r._pad@ == zero_limbs(),
    {
        let mut r = inv_mod_n(&a.inner);
        let m = mask(!Self::scalar_is_zero(a));
        let ghost raw = r;
        let mut i: usize = 0;
        while i < 8
            invariant
                0 <= i <= 8,
                r@.len() == 8,
                m == (if a.value() == 0 {
                    0u32
                } else {
                    0xffff_ffffu32
                }),
                forall|t: int| i <= t < 8 ==> r@[t] == raw@[t],
                forall|t: int| 0 <= t < i ==> r@[t] == (if a.value() == 0 {
                    0u32
                } else {
                    raw@[t]
                }),
            decreases 8 - i,
        {
            let v: u32 = r[i];
            proof {
                lemma_and_mask(v, m);
            }
            r[i] = v & m;
            i += 1;
        }
        proof {
            if a.value() == 0 {
                assert(r@ =~= zero_limbs());
            } else {
                assert(r@ =~= raw@);
            }
        }
        scalar_from_words(r)
    }

    /// Identical contract to `scalar_inv`. This variant must not receive
    /// secret inputs, so a branch on zero is acceptable here.
    pub fn scalar_inv_vartime(a: &Scalar) -> (r: Scalar)
        ensures
            a.value() == 0 ==> r.value() == 0,
            a.value() != 0 ==> r.value() == pow(a.value() as int, (group_order() - 2) as nat) % (
            group_order() as int),
            r._pad@ == zero_limbs(),
    {
        if Self::scalar_is_zero(a) {
            let z: [u32; 8] = [0u32; 8];
            assert(words_value(z@) == 0);
            return scalar_from_words(z);
        }
        scalar_from_words(inv_mod_n(&a.inner))
    }

    /// A 32-byte big-endian integer reduced mod n.
    pub fn scalar_reduce_bytes(bytes: &[u8; 32]) -> (r: Scalar)
        ensures
            r.value() == be_value(bytes@) % group_order(),
            r._pad@ == zero_limbs(),
    {
        let mut le: [u32; 8] = [0u32; 8];
        endian_swap_words(&mut le, bytes);
        proof {
            lemma_words_of_be_bytes_value(bytes@);
        }
        scalar_from_words(reduce_once(&le))
    }

    /// Whether z == 0, the point at infinity. Branchless OR-reduce.
    pub fn projective_is_identity(p: &ProjectivePoint) -> (r: bool)
        ensures
            r == (p.z@ == zero_limbs()),
    {
        let r = is_zero_words(&p.z);
        proof {
            if words_value(p.z@) == 0 {
                assert(p.z@ =~= zero_limbs());
            }
        }
        r
    }

    /// The identity: all coordinates zero.
    pub fn projective_identity() -> (r: ProjectivePoint)
        ensures
            r.is_zero_point(),
            r._pad@ == zero_limbs(),
    {
        let r = point_from_words([0u32; 8], [0u32; 8], [0u32; 8]);
        assert(r.x@ =~= zero_limbs());
        assert(r.y@ =~= zero_limbs());
        assert(r.z@ =~= zero_limbs());
        r
    }

    /// `k·G` from what the backend's fixed-base multiplication gave.
    /// Defined fallback: k == 0 yields the identity. The masked select is
    /// branchless (constant-time with respect to k).
    pub fn scalar_mul_base_result(k: &Scalar, out: ProjectivePoint) -> (r: ProjectivePoint)
        ensures
            r._pad == out._pad,
            k.value() == 0 ==> r.is_zero_point(),
            k.value() != 0 ==> r.x == out.x && r.y == out.y && r.z == out.z,
    {
        let mut out = out;
        zeroize_point_if(Self::scalar_is_zero(k), &mut out);
        out
    }

    /// `k·P` from what the backend's variable-base multiplication gave.
    /// Defined fallbacks: k · identity = identity and 0 · P = identity.
    /// Branchless.
    pub fn scalar_mul_projective_result(k: &Scalar, p: &ProjectivePoint, out: ProjectivePoint) -> (r:
        ProjectivePoint)
        ensures
            r._pad == out._pad,
            (k.value() == 0 || p.z@ == zero_limbs()) ==> r.is_zero_point(),
            !(k.value() == 0 || p.z@ == zero_limbs()) ==> r.x == out.x && r.y == out.y && r.z
                == out.z,
    {
        let mut out = out;
        let k_zero = Self::scalar_is_zero(k);
        let p_identity = Self::projective_is_identity(p);
        zeroize_point_if(k_zero || p_identity, &mut out);
        out
    }

    /// How `k1·P1 + k2·P2` is computed. Defined fallback for identity
    /// operands via the single-product path, same contract as the
    /// variable-base multiplication. Point validity is public in every
    /// intended use (key parsing, verification), so the branch is not a
    /// constant-time concern. Zero scalars need no guard: the combined pass
    /// contributes nothing for an all-zero recoding, which is exactly `0·P`.
    pub fn projective_lincomb_route(p1: &ProjectivePoint, p2: &ProjectivePoint) -> (r: LincombRoute)
        ensures
            r == (if p1.z@ == zero_limbs() {
                LincombRoute::SecondOnly
            } else if p2.z@ == zero_limbs() {
                LincombRoute::FirstOnly
            } else {
                LincombRoute::Both
            }),
    {
        if Self::projective_is_identity(p1) {
            return LincombRoute::SecondOnly;
        }
        if Self::projective_is_identity(p2) {
            return LincombRoute::FirstOnly;
        }
        LincombRoute::Both
    }
}

} // verus!
