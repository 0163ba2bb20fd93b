# p256_cortex_m4

P-256 scalar and point types for the Cortex-M4 assembly backend, in two
shapes: the raw types of `traits` (affine and Jacobian points in Montgomery
form, scalars mod n) and the opaque types that the embassy crypto driver
exchanges (`embassy_crypto`).

## Layout

- `src/` — the verified library (Verus).
  - `limbs.rs`: eight-limb integers, their big-endian byte encoding, carry
    and borrow steps; the encoding keeps the integer and round-trips.
  - `scalar_mod_n.rs`: arithmetic modulo the group order n (reduction, range
    check, addition, negation, multiplication, inversion by `a^(n-2)`).
  - `field_mod_p.rs`: leaving Montgomery form mod p (multiplication by
    `2^-256 mod p`), used to give affine coordinates as big-endian bytes.
  - `ct.rs`: the constant-time primitives of `subtle` and the zeroing of
    `zeroize`, each behind a stated contract.
  - `traits/`: `Scalar`, `AffinePoint`, `ProjectivePoint`.
  - `embassy_crypto.rs`: the driver-facing types, their canonical
    conversions, scalar operations and the defined fallbacks of the point
    operations (zero scalar or identity operand gives the identity, invalid
    encodings decode to the identity).
- `app/` — plain Rust around the library: the foreign declarations of the
  assembly backend, the point arithmetic that only the backend performs,
  the `subtle`/`zeroize` trait impls, the `repr(C, align(16))` driver types
  that the backend reads and writes, and the `P256Ops` registration.
- `tests/` — tests of the library on concrete values.
