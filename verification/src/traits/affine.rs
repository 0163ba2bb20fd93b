use vstd::prelude::*;
use vstd::std_specs::cmp::PartialEqSpec;

use crate::ct::ct_eq_words;
use vstd::arithmetic::div_mod::lemma_fundamental_div_mod_converse;

use crate::field_mod_p::{
    curve_b, from_montgomery, lemma_from_montgomery_inverts, montgomery_r_inverse, on_curve,
};
use crate::limbs::{
    lemma_words_value_injective,
    be_bytes_from_words, be_value, field_prime, lemma_be_bytes_of_words_value, two_pow_256,
    words_value,
};
use crate::scalar_mod_n::select_words;

verus! {

/// Affine point (x, y) in Montgomery form, little-endian `u32[8]`.
#[derive(Clone, Copy, Debug)]
pub struct AffinePoint {
    /// X coordinate (Montgomery form, little-endian u32[8])
    pub x: [u32; 8],
    /// Y coordinate (Montgomery form, little-endian u32[8])
    pub y: [u32; 8],
}

/// The x coordinate of the P-256 base point G.
pub open spec fn generator_x() -> nat {
    0x6b17d1f2e12c4247f8bce6e563a440f277037d812deb33a0f4a13945d898c296nat
}

/// The y coordinate of the P-256 base point G.
pub open spec fn generator_y() -> nat {
    0x4fe342e2fe1a7f9b8ee7eb4a7c0f9e162bce33576b315ececbb6406837bf51f5nat
}

/// The limbs of the generator's x coordinate, in Montgomery form.
pub open spec fn generator_x_limbs() -> Seq<u32> {
    seq![
        0x18a9143cu32,
        0x79e730d4,
        0x5fedb601,
        0x75ba95fc,
        0x77622510,
        0x79fb732b,
        0xa53755c6,
        0x18905f76,
    ]
}

/// The limbs of the generator's y coordinate, in Montgomery form.
pub open spec fn generator_y_limbs() -> Seq<u32> {
    seq![
        0xce95560au32,
        0xddf25357,
        0xba19e45c,
        0x8b4ab8e4,
        0xdd21f325,
        0xd2e88688,
        0x25885d85,
        0x8571ff18,
    ]
}

impl AffinePoint {
    /// The generator point G: its limbs hold `Gx·2^256 mod p` and
    /// `Gy·2^256 mod p`, the Montgomery forms of G's coordinates.
    pub fn generator() -> (r: Self)
        ensures
            r.x@ == generator_x_limbs(),
            r.y@ == generator_y_limbs(),
            words_value(r.x@) == (generator_x() * two_pow_256()) % (field_prime() as int),
            words_value(r.y@) == (generator_y() * two_pow_256()) % (field_prime() as int),
    {
        let r = AffinePoint {
            x: [
                0x18a9143cu32,
                0x79e730d4,
                0x5fedb601,
                0x75ba95fc,
                0x77622510,
                0x79fb732b,
                0xa53755c6,
                0x18905f76,
            ],
            y: [
                0xce95560au32,
                0xddf25357,
                0xba19e45c,
                0x8b4ab8e4,
                0xdd21f325,
                0xd2e88688,
                0x25885d85,
                0x8571ff18,
            ],
        };
        assert(r.x@ =~= generator_x_limbs());
        assert(r.y@ =~= generator_y_limbs());
        proof {
            let p = field_prime() as int;
            let qx = (generator_x() * two_pow_256()) / p;
            let qy = (generator_y() * two_pow_256()) / p;
            lemma_fundamental_div_mod_converse(
                generator_x() * two_pow_256(),
                p,
                qx,
                words_value(r.x@) as int,
            );
            lemma_fundamental_div_mod_converse(
                generator_y() * two_pow_256(),
                p,
                qy,
                words_value(r.y@) as int,
            );
        }
        r
    }

    /// Return the x-coordinate as big-endian bytes: the field element that
    /// the Montgomery-form limbs of `x` stand for, `value(x) · 2^-256 mod p`.
    pub fn x_be_bytes(&self) -> (r: [u8; 32])
        ensures
            be_value(r@) == (words_value(self.x@) * montgomery_r_inverse()) % field_prime(),
    {
        let plain = from_montgomery(&self.x);
        proof {
            lemma_be_bytes_of_words_value(plain@);
        }
        be_bytes_from_words(&plain)
    }

    /// Return the y-coordinate as big-endian bytes: the field element that
    /// the Montgomery-form limbs of `y` stand for, `value(y) · 2^-256 mod p`.
    pub fn y_be_bytes(&self) -> (r: [u8; 32])
        ensures
            be_value(r@) == (words_value(self.y@) * montgomery_r_inverse()) % field_prime(),
    {
        let plain = from_montgomery(&self.y);
        proof {
            lemma_be_bytes_of_words_value(plain@);
        }
        be_bytes_from_words(&plain)
    }

    /// Constant-time equality of both coordinates.
    pub fn ct_eq(&self, other: &Self) -> (r: bool)
        ensures
            r == (self.x@ == other.x@ && self.y@ == other.y@),
    {
        let same_x = ct_eq_words(&self.x, &other.x);
        let same_y = ct_eq_words(&self.y, &other.y);
        same_x && same_y
    }

    /// `a` when `choice` is unset and `b` when it is set, limb by limb without
    /// a branch on `choice`.
    pub fn conditional_select(a: &Self, b: &Self, choice: bool) -> (r: Self)
        ensures
            r.x@ == (if choice {
                b.x@
            } else {
                a.x@
            }),
            r.y@ == (if choice {
                b.y@
            } else {
                a.y@
            }),
    {
        let x = select_words(&a.x, &b.x, choice);
        let y = select_words(&a.y, &b.y, choice);
        AffinePoint { x, y }
    }
}

/// The generator's stored limbs stand for G's coordinates: leaving
/// Montgomery form gives `Gx` and `Gy`.
pub proof fn lemma_generator_coordinates()
    ensures
        (words_value(generator_x_limbs()) * montgomery_r_inverse()) % field_prime() == generator_x(),
        (words_value(generator_y_limbs()) * montgomery_r_inverse()) % field_prime() == generator_y(),
{
    let p = field_prime() as int;
    lemma_fundamental_div_mod_converse(
        generator_x() * two_pow_256(),
        p,
        (generator_x() * two_pow_256()) / p,
        words_value(generator_x_limbs()) as int,
    );
    lemma_fundamental_div_mod_converse(
        generator_y() * two_pow_256(),
        p,
        (generator_y() * two_pow_256()) / p,
        words_value(generator_y_limbs()) as int,
    );
    lemma_from_montgomery_inverts(generator_x());
    lemma_from_montgomery_inverts(generator_y());
}

/// The base point G lies on the curve: `Gy^2 ≡ Gx^3 - 3·Gx + b (mod p)`.
pub proof fn lemma_generator_on_curve()
    ensures
        on_curve(generator_x() as int, generator_y() as int),
{
    let p = field_prime() as int;
    let x = generator_x() as int;
    let y = generator_y() as int;
    let rest = 0x55df5d5850f47bad82149139979369fe498a9022a412b5e0bedd2cfc21c3ed91int;
    lemma_fundamental_div_mod_converse(
        y * y,
        p,
        0x18ee0d07e1cadf1365bd80dd843314dd534834655163ed44a7f051b975f0f918int,
        rest,
    );
    lemma_fundamental_div_mod_converse(
        x * x * x - 3 * x + curve_b(),
        p,
        0x12bdd1ad23dfc833dccf5f6141d6bb4a1f365dc1430b0e600b52dd851938d2d6ac1f13af10c6cf49636cc473bf6b1231aa3140cad30ce8beb57a985cd88ffd70int,
        rest,
    );
}

/// Affine points compare equal (`==`, and `ct_eq`) exactly when both
/// coordinates hold the same integers, that is when all limbs agree.
pub proof fn lemma_affine_eq_is_coordinate_eq(a: AffinePoint, b: AffinePoint)
    ensures
        a.eq_spec(&b) <==> (words_value(a.x@) == words_value(b.x@) && words_value(a.y@) == words_value(
            b.y@,
        )),
        a.eq_spec(&b) <==> (a.x@ == b.x@ && a.y@ == b.y@),
{
    if words_value(a.x@) == words_value(b.x@) && words_value(a.y@) == words_value(b.y@) {
        lemma_words_value_injective(a.x@, b.x@);
        lemma_words_value_injective(a.y@, b.y@);
    }
}

impl PartialEq for AffinePoint {
    fn eq(&self, other: &Self) -> (r: bool) {
        self.ct_eq(other)
    }
}

impl vstd::std_specs::cmp::PartialEqSpecImpl for AffinePoint {
    open spec fn obeys_eq_spec() -> bool {
        true
    }

    open spec fn eq_spec(&self, other: &Self) -> bool {
        self.x@ == other.x@ && self.y@ == other.y@
    }
}

impl Eq for AffinePoint {

}

} // verus!
