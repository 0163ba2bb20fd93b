//! Low-level raw types for SPAKE2+ and other protocols that need projective
//! point arithmetic and scalar field operations.
//!
//! These types provide inherent methods only; the scalar operations and the
//! byte encodings are carried out and proved here, while the point
//! arithmetic of the assembly backend is reached from outside this crate.
use vstd::prelude::*;

/// Affine point (x, y) with SEC1 encoding helpers.
pub mod affine;
/// Projective / Jacobian point with raw group operations.
pub mod projective;
/// Scalar field element (mod n).
pub mod scalar;

pub use affine::AffinePoint;
pub use projective::ProjectivePoint;
pub use scalar::Scalar;

verus! {

/// A value together with a flag that says whether it is meaningful. Both are
/// computed whatever the flag turns out to be, so that producing them takes
/// the same steps either way.
pub struct CtChecked<T> {
    pub value: T,
    pub is_some: bool,
}

} // verus!
