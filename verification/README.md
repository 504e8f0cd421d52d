# evolver

A verified core for Evolver, an algebraic logic generator over the definite
quaternion algebra B_{37, inf} (i^2 = -1, j^2 = -37, ij = -ji = k).

Layout:

- `src/soul/algebra.rs` — quaternions and lattice states, seeding from a
  SHA-256 digest, Hecke moves; contracts over the integer model `Quat`.
- `src/soul/laws.rs` — associativity, conjugation, the multiplicative and
  positive definite reduced norm, walks as ordered products.
- `src/soul/governor.rs` — primality and the choice of the next prime of
  an algebra migration.
- `src/body/` — the proof-action adapter, the exact (hash) projection, the
  unfolding of a seed into a decision path, and the homology of the
  1-skeleton of a point cloud (connected components by breadth-first
  search, GF(2) rank of the boundary operator with an echelon certificate).
- `src/body/row_space.rs` — the GF(2) row space: row operations keep its
  leading columns, so the rank that elimination reports is well defined.
- `src/dsl/`, `src/will/` — compilation of logic text, integer primality,
  the exact path of the rigorous evaluator, and the replay of optimization
  traces.
- `app/` — the parts that compute with floating point or randomness (the
  VAPO search, Ricci curvature, spectral governance, the bias channel, the
  math kernel, the lifter), serialization, and the Python binding.
