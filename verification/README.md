# ark-bpr20

A verified implementation of the BPR20 zkSNARK
(<https://eprint.iacr.org/2020/1306>), written in Verus.

- `src/` is the library. `generator` makes keys for a rank-one constraint system,
  `prover` creates proofs and `verify` verifies them, one by one or in vectors.
  `r1cs` holds the constraint systems, `r1cs_to_qap` reduces them to quadratic
  arithmetic programs, and `challenge` draws the Fiat-Shamir challenge.
- `algebra`, `polynomial`, `units`, `domain` and `equation` hold the mathematics:
  congruences, sums, polynomials, roots of unity and the equation of the verifier.
- `groups` and `pairing` say what is asked of a pairing-friendly curve. `bls12_381`
  meets it with the arkworks crates; it and `challenge`, which calls `blake2`, are
  the modules that trust outside code.
- `random` keeps a record of what is drawn from a source of scalars, and the
  contracts of setup and prover say which draw becomes which secret.
- `completeness` proves that an honest proof of a true statement is accepted,
  whatever the randomness. `verify` proves that a valid proof is refused for another
  input, and that no other `c` element makes it valid.
- `app/` connects the library to the circuits, the serialisation and the `SNARK`
  trait of arkworks.
- `tests/` runs the library against the same mathematics done directly with
  arkworks.

The library works on plain bytes and limbs: a scalar is four limbs, a point its
encoding. Its contracts speak of the numbers that these stand for.
