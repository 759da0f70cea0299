# stwo

The prover side of a Circle STARK over the Mersenne prime field, verified with Verus.

- `src/fields`, `src/circle.rs`, `src/line.rs`, `src/constraints.rs`: the fields, the circle group
  and its cosets, vanishing polynomials.
- `src/poly`: circle polynomials, the circle FFT and its inverse, evaluation at points by
  coefficients and by barycentric weights.
- `src/fri.rs`, `src/decompose.rs`, `src/quotients.rs`: folding, decomposition, quotients of sampled
  columns.
- `src/vcs`, `src/pcs`: Merkle trees over columns of different sizes, salts, openings, and the
  polynomial commitment scheme.
- `src/framework`: constraint expressions, evaluators, lookup columns and constraint quotients.
- `src/metal`: what is handed to a GPU, pass by pass, and what comes back.
- `src/composition_stage.rs`, `src/parallel.rs`: the replaceable composition stage, and work on a
  pool of threads.

`app` holds what surrounds the library: sessions on a device, its kernels and launches, shared caches,
logging, and the types that carry derives of other crates. `tests` runs the library on concrete
values.
