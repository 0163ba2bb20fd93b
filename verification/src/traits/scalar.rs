use vstd::prelude::*;
use vstd::std_specs::cmp::PartialEqSpec;
use vstd::arithmetic::power::pow;

use super::CtChecked;
use crate::ct::{ct_eq_words, zeroize_words};
use crate::limbs::{
    lemma_words_value_injective,
    be_bytes_from_words, be_bytes_of_words, be_value, lemma_words_of_be_bytes_value,
    words_from_be_bytes, words_of_be_bytes, words_value,
};
use crate::scalar_mod_n::{
    add_mod_n, check_range_n, group_order, inv_mod_n, is_zero_words, mul_mod_n, neg_mod_n,
    reduce_once, select_words,
};

verus! {

/// Scalar modulo n, held as eight little-endian `u32` limbs in plain
/// (not Montgomery) representation. The limbs are public so that the point
/// arithmetic of the backend can be handed them; every operation reduces its
/// inputs mod n, so a value at or above n acts as its residue.
#[derive(Clone, Copy)]
pub struct Scalar(pub [u32; 8]);

impl Scalar {
    /// The zero scalar.
    pub fn zero() -> (r: Self)
        ensures
            r.0@ == seq![0u32; 8],
            r.value() == 0,
    {
        let r = Self([0u32; 8]);
        assert(r.0@ =~= seq![0u32; 8]);
        r
    }

    /// The scalar 1.
    pub fn one() -> (r: Self)
        ensures
            r.0@ == seq![1u32, 0, 0, 0, 0, 0, 0, 0],
            r.value() == 1,
    {
        let r = Self([1u32, 0, 0, 0, 0, 0, 0, 0]);
        assert(r.0@ =~= seq![1u32, 0, 0, 0, 0, 0, 0, 0]);
        r
    }

    /// The integer that the limbs denote.
    pub open spec fn value(self) -> nat {
        words_value(self.0@)
    }

    /// Decode a scalar from a 32-byte big-endian integer.
    ///
    /// Returns `None` (`is_some` unset) if the value is 0 or >= n.
    pub fn from_be_bytes(bytes: &[u8; 32]) -> (r: CtChecked<Self>)
        ensures
            r.value.0@ == words_of_be_bytes(bytes@),
            r.value.value() == be_value(bytes@),
            r.is_some == (0 < be_value(bytes@) < group_order()),
    {
        let le = words_from_be_bytes(bytes);
        let valid = check_range_n(&le);
        proof {
            lemma_words_of_be_bytes_value(bytes@);
        }
        CtChecked { value: Self(le), is_some: valid }
    }

    /// Encode the scalar as a 32-byte big-endian integer.
    pub fn to_be_bytes(&self) -> (r: [u8; 32])
        ensures
            r@ == be_bytes_of_words(self.0@),
    {
        be_bytes_from_words(&self.0)
    }

    /// The limbs, least significant first.
    pub fn as_inner(&self) -> (r: &[u32; 8])
        ensures
            r == &self.0,
    {
        &self.0
    }

    /// Add two scalars (mod n).
    pub fn add(&self, other: &Self) -> (r: Self)
        ensures
            r.value() == (self.value() + other.value()) % group_order(),
    {
        Self(add_mod_n(&self.0, &other.0))
    }

    /// Multiply two scalars (mod n).
    pub fn mul(&self, other: &Self) -> (r: Self)
        ensures
            r.value() == (self.value() * other.value()) % group_order(),
    {
        Self(mul_mod_n(&self.0, &other.0))
    }

    /// Negate a scalar (mod n).
    pub fn negate(&self) -> (r: Self)
        ensures
            r.value() == (group_order() - self.value() % group_order()) % (group_order() as int),
    {
        Self(neg_mod_n(&self.0))
    }

    /// Modular inverse (mod n). Returns `None` (`is_some` unset) if self is
    /// zero mod n. The value is `self^(n-2) mod n`, the inverse since `n` is
    /// prime.
    pub fn inv(&self) -> (r: CtChecked<Self>)
        ensures
            r.value.value() == pow(self.value() as int, (group_order() - 2) as nat) % (
            group_order() as int),
            r.is_some == (self.value() % group_order() != 0),
    {
        let r = inv_mod_n(&self.0);
        let reduced = reduce_once(&self.0);
        let zero = is_zero_words(&reduced);
        CtChecked { value: Self(r), is_some: !zero }
    }

    /// Double a scalar (mod n).
    pub fn double(&self) -> (r: Self)
        ensures
            r.value() == (2 * self.value()) % group_order(),
    {
        self.add(self)
    }

    /// Square a scalar (mod n).
    pub fn square(&self) -> (r: Self)
        ensures
            r.value() == (self.value() * self.value()) % group_order(),
    {
        self.mul(self)
    }

    /// Constant-time equality of the limbs.
    pub fn ct_eq(&self, other: &Self) -> (r: bool)
        ensures
            r == (self.0@ == other.0@),
    {
        ct_eq_words(&self.0, &other.0)
    }

    /// `a` when `choice` is unset and `b` when it is set, limb by limb without
    /// a branch on `choice`.
    pub fn conditional_select(a: &Self, b: &Self, choice: bool) -> (r: Self)
        ensures
            r.0@ == (if choice {
                b.0@
            } else {
                a.0@
            }),
    {
        Self(select_words(&a.0, &b.0, choice))
    }

    /// Overwrite the limbs with zeros, in a way the compiler keeps.
    pub fn zeroize(&mut self)
        ensures
            final(self).0@ == seq![0u32; 8],
    {
        zeroize_words(&mut self.0);
        proof {
            assert(self.0@ =~= seq![0u32; 8]);
        }
    }
}

/// Scalars compare equal (`==`, and `ct_eq`) exactly when they hold the same
/// integer, that is when all eight limbs agree.
pub proof fn lemma_scalar_eq_is_value_eq(a: Scalar, b: Scalar)
    ensures
        a.eq_spec(&b) <==> a.value() == b.value(),
        a.eq_spec(&b) <==> a.0@ == b.0@,
{
    if a.value() == b.value() {
        lemma_words_value_injective(a.0@, b.0@);
    }
}

impl PartialEq for Scalar {
    fn eq(&self, other: &Self) -> (r: bool) {
        self.ct_eq(other)
    }
}

impl vstd::std_specs::cmp::PartialEqSpecImpl for Scalar {
    open spec fn obeys_eq_spec() -> bool {
        true
    }

    open spec fn eq_spec(&self, other: &Self) -> bool {
        self.0@ == other.0@
    }
}

impl Eq for Scalar {

}

impl Default for Scalar {
    fn default() -> (r: Self)
        ensures
            r.0@ == seq![0u32; 8],
            r.value() == 0,
    {
        Self::zero()
    }
}

} // verus!
