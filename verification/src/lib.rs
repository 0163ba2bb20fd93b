//! P-256 scalar and point types for the Cortex-M4 backend, with the
//! byte-level encodings and the arithmetic modulo the group order proved
//! against their mathematical meaning.
mod ct;
pub mod limbs;
pub mod scalar_mod_n;
pub mod field_mod_p;
pub mod traits;
pub mod embassy_crypto;
