//! Constant-time primitives of `subtle` (through `elliptic_curve`) and the
//! zeroing of `zeroize`, each behind a small contract.
use elliptic_curve::subtle::{Choice, ConditionallySelectable, ConstantTimeEq};
use vstd::prelude::*;
use zeroize::Zeroize;

verus! {

/// `subtle`'s `u32::conditional_select`: gives `b` when `choice` is set and
/// `a` otherwise, without a branch on `choice`.
#[verifier::external_body]
pub(crate) fn ct_select_u32(a: u32, b: u32, choice: bool) -> (r: u32)
    ensures
        r == (if choice {
            b
        } else {
            a
        }),
{
    u32::conditional_select(&a, &b, Choice::from(choice as u8))
}

/// `subtle`'s `ConstantTimeEq` on `[u32]` slices of equal length: set exactly
/// when the limbs agree one by one.
#[verifier::external_body]
pub(crate) fn ct_eq_words(a: &[u32; 8], b: &[u32; 8]) -> (r: bool)
    ensures
        r == (a@ == b@),
{
    bool::from(a.ct_eq(b))
}

/// `zeroize`'s `Zeroize` on `[u32; 8]`: every limb is set to zero, by writes
/// that the compiler may not remove.
#[verifier::external_body]
pub(crate) fn zeroize_words(w: &mut [u32; 8])
    ensures
        forall|i: int| 0 <= i < 8 ==> final(w)@[i] == 0,
        final(w)@.len() == 8,
{
    w.zeroize();
}

} // verus!
