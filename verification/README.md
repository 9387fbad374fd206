# zkmemory (Poseidon)

The Poseidon permutation and sponge over the Pallas base field, and the
constant-length Poseidon hash built on them, verified with Verus.

- `src/field.rs`: field elements, held as canonical 32-byte encodings; the
  arithmetic is done by `halo2_proofs::pasta::Fp` (through the `ff` traits).
- `src/params.rs`: the `Spec` of a Poseidon instance (rounds, S-box, constants)
  and the `Domain` it hashes in, with `ConstantLength`.
- `src/model.rs`: the permutation and the sponge over the integers below `p`,
  which the contracts are stated in.
- `src/permutation.rs`, `src/sponge.rs`: the permutation, the sponge and the
  hasher `HashTest`.
- `src/laws.rs`: how absorbing, padding, finishing and squeezing fit together.
- `app/lib.rs`: the circuit-facing declarations (`Var`, `StateWord`,
  `PaddedWord`, the chip instruction traits) over `halo2_proofs`.
