# labrador

Verified parameter, layout and constraint-shape logic of the LaBRADOR lattice-based
proof system, written in Verus.

`src/` is the verified library:

- `size`, `params`, `rounding`: sizes of the folded witness, the choice of the
  decomposition split, the integer parameters of each round and the proof size.
- `layout`: where each part of the next witness lives, and the laws that writes to
  one region leave the others alone and read back.
- `r1cs_params`, `binary_reduce`, `binary_laws`, `embedding`: the parameter checks
  and the constraints of the binary R1CS reduction, with laws giving the value of
  each constraint on a witness.
- `folding`: the index arithmetic of folding one round into the next.
- `transcript`: the schedule of prover and verifier messages.

`app/` holds the ring arithmetic, the prover and verifier, and the transcript
plumbing, which rest on crates outside this library.
