# ternary_coordination

Coordination algebra over the three-valued field {-1, 0, +1} = Z/3Z, written
in Verus: every function in `src/` carries a contract that Verus proves.

- `src/ternary.rs`: the `Ternary` type and Z/3Z arithmetic, with the field laws.
- `src/algebra.rs`: `TernaryRing` and the group and module structures; the
  exhaustive axiom checks are proved to agree with the laws they check.
- `src/balance.rs`: balanced ternary numerals; conversion, addition and
  negation are stated over the value Σ dᵢ·3ⁱ, and canonical forms are unique.
- `src/matrix.rs`: ternary matrices: product, transpose, determinant,
  inverse and reduction to reduced row echelon form.
- `src/laplace.rs`: expansion along any row and A · adj(A) = det(A) · I.
- `src/columns.rs`: expansion along the first column, det(Aᵀ) = det(A) and
  adj(A) · A = det(A) · I, so the inverse is two-sided.
- `src/row_space.rs`: each pivot step of row reduction can be undone.
- `src/consensus.rs`: consensus rounds votes ← W · votes and their laws.

`app/` holds what the verified library does not model: `Display`, serde
copies of the library types, and the floating-point spectral analysis.
