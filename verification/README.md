# poseidon_parameters

Matrices over the BLS12-377 scalar field, as they appear in Poseidon
parameters, verified with Verus.

- `src/fq.rs`: `Fq`, a field element held as its canonical little-endian
  encoding; its view is the number it encodes (below `q()`). Multiplication
  calls `decaf377::Fq`; the canonical-encoding check is proved here.
- `src/matrix.rs`: `Matrix<N_ROWS, N_COLS, N_ELEMENTS>` and `SquareMatrix`,
  with construction, element access, transpose, Hadamard product, scalar
  multiplication (`*`), row vectors (row `i` in the first `N_COLS`
  entries, zeros after) and `new_2x2`. Their views are the
  row-major sequences of entry values.
- `src/laws.rs`: laws that relate the operations (transpose is an
  involution on square matrices, the Hadamard product is commutative and
  associative, scaling composes, transpose commutes with both products,
  reading an entry after setting one).
- `tests/`: executable tests on concrete values.
