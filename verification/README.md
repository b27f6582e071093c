# cggmp21 (verified core)

The arithmetic and validation core of a threshold-ECDSA library (CGGMP21 with
hierarchical, Birkhoff-interpolated key shares), written in Verus. Every function in
`src/` carries a contract that Verus proves; calls into `num-bigint`, `num-integer`,
`itertools`, `generic-ec`, `generic-ec-zkp` and `sha2` stand behind small trusted wrappers whose
contracts state what those crates document.

Layout of `src/`:

- `integer` — arbitrary-precision integers over `num-bigint`, modelled as `int`.
- `linalg` — the mathematical model of matrices (products, transposes, row operations,
  congruence) and the lemmas and laws the matrix algorithms rest on.
- `matrix`, `error` — matrices of big integers modulo a field order: rank, Gaussian
  elimination, inverse, pseudoinverse.
- `interpolation`, `recovery` — Birkhoff parameters, the Birkhoff linear system, the
  coefficients that recover a secret from hierarchical shares, and the laws that show it.
- `scalar`, `point` — secp256k1 scalars and points through `generic-ec`.
- `birkhoff_matrix`, `birkhoff_coefficient`, `birkhoff_error`, `polynomial` — the same
  algebra over the secp256k1 scalar field, and derivatives of polynomials.
- `keygen` — the rounds of threshold and hierarchical key generation: the shares and
  public polynomial of round 1, the checks of rounds 2 and 3 (decommitments, polynomial
  sizes, Feldman verification at a party's derivative order, Schnorr proofs), the public
  shares, secret share and shared public key that follow, and the key share.
- `keygen_protocol` — the parties of key generation, made from checked parameters.
- `share_conversion` — hierarchical (Birkhoff) and threshold (Lagrange) shares of the
  signers made additive for signing.
- `signing` — ECDSA signatures: encoding, normalization, verification, partial
  signatures.
- `ec_point` — points given by their coordinates, and their linear combination on
  secp256k1.
- `params`, `security_level`, `utils`, `execution_id`, `protocol` — parameter rules of the
  protocols, blame collection and other helpers, and a small demonstration protocol.

`app/` holds what Verus does not take: `Display` and `std::error::Error` for copies of
the error types, and printing of matrices.
