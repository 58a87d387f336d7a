# whir_lookup

A Verus library for two parts of a hash-based proof system.

**Parameters of the polynomial commitment.** From a witness size and a first code rate, the library
derives the ladder of Reed-Solomon levels and, per level, the fewest queries at which every
verifier challenge clears 128 bits round by round. It validates such configurations and turns them
into the one that prover and verifier share. All decisions are made in exact integers; the proofs
show that a derived configuration is valid and that a valid one meets every error term.

**Lookups and execution proofs.** Sums of fractions by layers, indexed lookups, the buses between
tables, and what an execution proof computes between its steps. Provers and verifiers are state
machines: `request` says what is wanted from the transcript, a `step` function takes the reply. The
proofs show that an honest session is accepted and leaves true statements.

## Layout

- `src/`: the library. `*_laws.rs` and `*_session.rs` hold statements that span several functions.
- `tests/`: the library on concrete values.
- `app/`: figures in floating point, logging, and the loops that run the state machines against a
  transcript, a sumcheck and a commitment scheme.

## What is trusted

Contracts on outside functions, each with a comment that says what it claims: big integers
(`src/bigint.rs`, `num-bigint`), logarithms of lengths (`src/log2.rs`, `p3-util`), and inverses in
the prime field and its extension (`src/koala_bear.rs`, `src/quintic.rs`, `p3-field` and
`p3-koala-bear`).
