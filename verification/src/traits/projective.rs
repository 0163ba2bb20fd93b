use vstd::prelude::*;

use super::{AffinePoint, CtChecked};
use crate::ct::ct_eq_words;
use crate::limbs::montgomery_one_limbs;

verus! {

/// Jacobian point (x, y, z) in Montgomery form.
///
/// Provides raw projective arithmetic for protocols like SPAKE2+.
#[derive(Clone, Debug)]
pub struct ProjectivePoint(pub [u32; 8], pub [u32; 8], pub [u32; 8]);

impl ProjectivePoint {
    /// The identity point: all three coordinates zero.
    pub fn identity() -> (r: Self)
        ensures
            r.0@ == seq![0u32; 8],
            r.1@ == seq![0u32; 8],
            r.2@ == seq![0u32; 8],
    {
        let r = Self([0u32; 8], [0u32; 8], [0u32; 8]);
        assert(r.0@ =~= seq![0u32; 8]);
        assert(r.1@ =~= seq![0u32; 8]);
        assert(r.2@ =~= seq![0u32; 8]);
        r
    }

    /// Convert an affine point to projective coordinates: the same x and y,
    /// and z = 1 in Montgomery form.
    pub fn from_affine(p: &AffinePoint) -> (r: Self)
        ensures
            r.0 == p.x,
            r.1 == p.y,
            r.2@ == montgomery_one_limbs(),
    {
        let mut z: [u32; 8] = [0u32; 8];
        // z = 1 in Montgomery form (matches the backend's convention)
        z[0] = 1;
        z[3] = 0xffffffff;
        z[4] = 0xffffffff;
        z[5] = 0xffffffff;
        z[6] = 0xfffffffe;
        assert(z@ =~= montgomery_one_limbs());
        Self(p.x, p.y, z)
    }

    /// Whether this is the point at infinity (z == 0), decided in constant
    /// time.
    pub fn is_identity(&self) -> (r: bool)
        ensures
            r == (self.2@ == seq![0u32; 8]),
    {
        let zero: [u32; 8] = [0u32; 8];
        proof {
            assert(zero@ =~= seq![0u32; 8]);
        }
        ct_eq_words(&self.2, &zero)
    }

    /// The affine form of this point, from the coordinates `x` and `y` that
    /// the backend's Jacobian-to-affine conversion gave for it. Returns
    /// `None` (`is_some` unset) if the point is the identity (Z == 0).
    pub fn to_affine_with(&self, x: [u32; 8], y: [u32; 8]) -> (r: CtChecked<AffinePoint>)
        ensures
            r.value.x == x,
            r.value.y == y,
            r.is_some == (self.2@ != seq![0u32; 8]),
    {
        let is_identity = self.is_identity();
        CtChecked { value: AffinePoint { x, y }, is_some: !is_identity }
    }
}

/// A point made from an affine point is never the identity: its z is the
/// Montgomery form of 1, which is not zero.
pub proof fn lemma_from_affine_is_not_identity(p: ProjectivePoint)
    requires
        p.2@ == montgomery_one_limbs(),
    ensures
        p.2@ != seq![0u32; 8],
{
    assert(montgomery_one_limbs()[0] != seq![0u32; 8][0]);
}

} // verus!
