# rokoko

Verified building blocks of the RoKoko lattice-based SNARK / polynomial
commitment: ring and extension-field arithmetic, commitment keys and basic
commitments, folding, coarse projections, the sumcheck gadgets, and the claim
language with its canonical form, all checked with Verus against contracts
over a mathematical model.

## Model

* `F_q` with `q = 2^61 - 1`; the quadratic extension `F_q[i]/(i^2 + 1)` is a
  pair of integers, and a ring element of `Z_q[X]/(X^DEGREE + 1)` is its
  `HALF_DEGREE` extension slots (the ring splits into quadratic factors), so
  ring products are slot-wise.
* Every executable function states its result over these views (`@`), and the
  laws of the library are public proof functions next to the code they speak
  of.

## Layout

* `src/common` – field and extension algebra (`algebra`, `field`), the ring
  element and its conjugation, bit helpers, structured rows (tensor rows), the
  transcript (`hash`) and public sampling (BLAKE3 XOF behind one trusted
  wrapper).
* `src/protocol` – commitment keys (`crs`, `crs_standard`), basic commitments
  and their folding laws, placements of committed components in the next
  witness, the parameter sets of the protocol chain (`params`, with their
  level types in `config_generator`), projections, and:
  * `sumcheck` – the linear and inner-product gadgets and their round laws,
    and the interfaces they share;
  * `sumcheck_utils` – round polynomials in evaluation form with interpolation
    and extrapolation laws;
  * `snark` – the witness layout and its read-back law, regions, weights and
    claim expressions, their value over the witness cube, the canonical form
    (which keeps every value), degree validation, the region-claim law, and
    the verifier's replay of the sumcheck rounds (`rounds`), and the
    verifier of the initial claims (`check_claims`): batching, round replay,
    the final check against the claims' values at the final point, and the
    chain inputs it hands on.
* `tests` – scenarios on concrete values for each module.
