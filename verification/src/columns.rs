//! Cofactor expansion along the first column. From it the determinant of a
//! transpose equals the determinant, adj(A) · A = det(A) · I, and the
//! inverse is a left inverse as well as a right one.

use vstd::prelude::*;
use crate::ternary::{self, Ternary};
use crate::matrix::{self, TernaryMatrix};
use crate::laplace;

verus! {

/// The entries of `e` with rows and columns exchanged.
pub open spec fn transposed(e: spec_fn(int, int) -> Ternary) -> spec_fn(int, int) -> Ternary {
    |r: int, c: int| e(c, r)
}

/// The term for row `r` in the expansion of `det(n, e)` along the first column.
pub open spec fn colterm(n: nat, e: spec_fn(int, int) -> Ternary, r: int) -> Ternary {
    ternary::tmul(
        ternary::tmul(matrix::sign(r), e(r, 0)),
        matrix::det((n - 1) as nat, matrix::minor_of(e, r, 0)),
    )
}

/// The term with e(0, k + 1) · e(d + 1, 0) in the expansion of `det(n, e)`
/// along its first row and its first column together.
pub open spec fn xterm(n: nat, e: spec_fn(int, int) -> Ternary, d: int, k: int) -> Ternary {
    ternary::tmul(
        ternary::tmul(ternary::tmul(matrix::sign(d + k + 1), e(0, k + 1)), e(d + 1, 0)),
        matrix::det((n - 2) as nat, matrix::minor_of(matrix::minor_of(e, 0, 0), d, k)),
    )
}

/// A first-row term for column k + 1 is a sum of cross terms, once its
/// minor is expanded along its first column.
proof fn lemma_cterm_cross(n: nat, e: spec_fn(int, int) -> Ternary, k: int)
    requires
        n >= 2,
        0 <= k < n - 1,
        matrix::det((n - 1) as nat, matrix::minor_of(e, 0, k + 1)) == laplace::tsum(
            (n - 1) as nat,
            |d: int| colterm((n - 1) as nat, matrix::minor_of(e, 0, k + 1), d),
        ),
    ensures
        laplace::cterm(n, e, k + 1) == laplace::tsum((n - 1) as nat, |d: int| xterm(n, e, d, k)),
{
    let c = k + 1;
    let m = matrix::minor_of(e, 0, c);
    let x = ternary::tmul(matrix::sign(c), e(0, c));
    let inner = |d: int| colterm((n - 1) as nat, m, d);
    let scaled = |d: int| ternary::tmul(x, inner(d));
    laplace::lemma_tsum_scale((n - 1) as nat, inner, scaled, x);
    assert forall|d: int| 0 <= d < n - 1 implies #[trigger] scaled(d) == xterm(n, e, d, k) by {
        let mm = matrix::minor_of(m, d, 0);
        let dd = matrix::minor_of(matrix::minor_of(e, 0, 0), d, k);
        assert forall|i: int, j: int| 0 <= i < n - 2 && 0 <= j < n - 2 implies #[trigger] mm(i, j) == dd(i, j) by {
        }
        matrix::lemma_det_congruent((n - 2) as nat, mm, dd);
        assert(m(d, 0) == e(d + 1, 0));
        laplace::lemma_sign_add(c, d);
        assert(c + d == d + k + 1);
        ternary::lemma_mul_regroup(matrix::sign(c), e(0, c), matrix::sign(d), e(d + 1, 0), matrix::det((n - 2) as nat, dd));
    }
    laplace::lemma_tsum_congruent((n - 1) as nat, scaled, |d: int| xterm(n, e, d, k));
}

/// A first-column term for row d + 1 is a sum of cross terms, by the
/// first-row expansion of its minor.
proof fn lemma_colterm_cross(n: nat, e: spec_fn(int, int) -> Ternary, d: int)
    requires
        n >= 2,
        0 <= d < n - 1,
    ensures
        colterm(n, e, d + 1) == laplace::tsum((n - 1) as nat, |k: int| xterm(n, e, d, k)),
{
    let r = d + 1;
    let m = matrix::minor_of(e, r, 0);
    let y = ternary::tmul(matrix::sign(r), e(r, 0));
    laplace::lemma_det_is_tsum((n - 1) as nat, m);
    let inner = |k: int| laplace::cterm((n - 1) as nat, m, k);
    let scaled = |k: int| ternary::tmul(y, inner(k));
    laplace::lemma_tsum_scale((n - 1) as nat, inner, scaled, y);
    assert forall|k: int| 0 <= k < n - 1 implies #[trigger] scaled(k) == xterm(n, e, d, k) by {
        let mm = matrix::minor_of(m, 0, k);
        let dd = matrix::minor_of(matrix::minor_of(e, 0, 0), d, k);
        assert forall|i: int, j: int| 0 <= i < n - 2 && 0 <= j < n - 2 implies #[trigger] mm(i, j) == dd(i, j) by {
        }
        matrix::lemma_det_congruent((n - 2) as nat, mm, dd);
        assert(m(0, k) == e(0, k + 1));
        laplace::lemma_sign_add(r, k);
        assert(r + k == d + k + 1);
        ternary::lemma_mul_regroup(matrix::sign(r), e(r, 0), matrix::sign(k), e(0, k + 1), matrix::det((n - 2) as nat, dd));
        ternary::lemma_swap_last(matrix::sign(r + k), e(r, 0), e(0, k + 1));
    }
    laplace::lemma_tsum_congruent((n - 1) as nat, scaled, |k: int| xterm(n, e, d, k));
}

/// Cofactor expansion along the first column gives the determinant.
pub proof fn lemma_laplace_first_column(n: nat, e: spec_fn(int, int) -> Ternary)
    requires
        n >= 1,
    ensures
        matrix::det(n, e) == laplace::tsum(n, |r: int| colterm(n, e, r)),
    decreases n,
{
    if n == 1 {
        matrix::lemma_det_one(e);
        ternary::lemma_mul_identity(e(0, 0));
        ternary::lemma_add_identity(e(0, 0));
        assert(colterm(1, e, 0) == e(0, 0));
        reveal_with_fuel(laplace::tsum, 2);
    } else {
        let m = (n - 1) as nat;
        let cross = |d: int, k: int| xterm(n, e, d, k);
        // along the first row
        laplace::lemma_det_is_tsum(n, e);
        let g = |c: int| laplace::cterm(n, e, c);
        laplace::lemma_tsum_skip(n, g, 0);
        assert forall|k: int| 0 <= k < m implies #[trigger] g(matrix::skip(k, 0)) == laplace::tsum(m, |d: int| cross(d, k)) by {
            lemma_laplace_first_column(m, matrix::minor_of(e, 0, k + 1));
            lemma_cterm_cross(n, e, k);
            laplace::lemma_tsum_congruent(m, |d: int| xterm(n, e, d, k), |d: int| cross(d, k));
        }
        laplace::lemma_tsum_congruent(m, |k: int| g(matrix::skip(k, 0)), |k: int| laplace::tsum(m, |d: int| cross(d, k)));
        // along the first column
        let h = |r: int| colterm(n, e, r);
        laplace::lemma_tsum_skip(n, h, 0);
        assert forall|d: int| 0 <= d < m implies #[trigger] h(matrix::skip(d, 0)) == laplace::tsum(m, |k: int| cross(d, k)) by {
            lemma_colterm_cross(n, e, d);
            laplace::lemma_tsum_congruent(m, |k: int| xterm(n, e, d, k), |k: int| cross(d, k));
        }
        laplace::lemma_tsum_congruent(m, |d: int| h(matrix::skip(d, 0)), |d: int| laplace::tsum(m, |k: int| cross(d, k)));
        // the cross terms are the same double sum in either order
        laplace::lemma_tsum_exchange(m, m, cross);
        assert(g(0) == h(0));
    }
}

/// The determinant of the transpose is the determinant.
pub proof fn lemma_det_transposed(n: nat, e: spec_fn(int, int) -> Ternary)
    ensures
        matrix::det(n, transposed(e)) == matrix::det(n, e),
    decreases n,
{
    if n > 0 {
        let t = transposed(e);
        laplace::lemma_det_is_tsum(n, t);
        assert forall|c: int| 0 <= c < n implies #[trigger] laplace::cterm(n, t, c) == colterm(n, e, c) by {
            let mt = matrix::minor_of(t, 0, c);
            let me = matrix::minor_of(e, c, 0);
            assert forall|i: int, j: int| 0 <= i < n - 1 && 0 <= j < n - 1 implies #[trigger] mt(i, j) == transposed(me)(i, j) by {
            }
            matrix::lemma_det_congruent((n - 1) as nat, mt, transposed(me));
            lemma_det_transposed((n - 1) as nat, me);
        }
        laplace::lemma_tsum_congruent(n, |c: int| laplace::cterm(n, t, c), |c: int| colterm(n, e, c));
        lemma_laplace_first_column(n, e);
    }
}

/// The (r, c) cofactor of the transpose is the (c, r) cofactor.
pub proof fn lemma_cofactor_transposed(n: nat, e: spec_fn(int, int) -> Ternary, r: int, c: int)
    requires
        n >= 1,
    ensures
        matrix::cofactor(n, transposed(e), r, c) == matrix::cofactor(n, e, c, r),
{
    let mt = matrix::minor_of(transposed(e), r, c);
    let me = matrix::minor_of(e, c, r);
    assert forall|i: int, j: int| 0 <= i < n - 1 && 0 <= j < n - 1 implies #[trigger] mt(i, j) == transposed(me)(i, j) by {
    }
    matrix::lemma_det_congruent((n - 1) as nat, mt, transposed(me));
    lemma_det_transposed((n - 1) as nat, me);
    assert(r + c == c + r);
}

/// adj(A) · A = det(A) · I: expanding column `i` of `e` against the
/// cofactors of column `k` gives the determinant when i = k and zero otherwise.
pub proof fn lemma_adjugate_identity_columns(n: nat, e: spec_fn(int, int) -> Ternary, i: int, k: int)
    requires
        0 <= i < n,
        0 <= k < n,
    ensures
        laplace::tsum(n, |j: int| ternary::tmul(matrix::cofactor(n, e, j, k), e(j, i))) == if i == k {
            matrix::det(n, e)
        } else {
            Ternary::Zero
        },
{
    let t = transposed(e);
    laplace::lemma_adjugate_identity(n, t, i, k);
    assert forall|j: int| 0 <= j < n implies #[trigger] ternary::tmul(t(i, j), matrix::cofactor(n, t, k, j))
        == ternary::tmul(matrix::cofactor(n, e, j, k), e(j, i)) by {
        lemma_cofactor_transposed(n, e, k, j);
        ternary::lemma_commutative(e(j, i), matrix::cofactor(n, e, j, k));
    }
    laplace::lemma_tsum_congruent(
        n,
        |j: int| ternary::tmul(t(i, j), matrix::cofactor(n, t, k, j)),
        |j: int| ternary::tmul(matrix::cofactor(n, e, j, k), e(j, i)),
    );
    lemma_det_transposed(n, e);
}

/// A square matrix and its transpose have the same determinant: when `t`
/// holds the entries of `a` with rows and columns exchanged,
/// det(t) = det(a).
pub proof fn lemma_det_transpose(a: TernaryMatrix, t: TernaryMatrix)
    requires
        a.rows == a.cols,
        t.rows == a.cols,
        t.cols == a.rows,
        forall|i: int, j: int| 0 <= i < a.cols && 0 <= j < a.rows ==> #[trigger] t.entry(i, j) == a.entry(j, i),
    ensures
        matrix::det(t.rows as nat, matrix::entries(t)) == matrix::det(a.rows as nat, matrix::entries(a)),
{
    let n = a.rows as nat;
    let et = matrix::entries(t);
    let ta = transposed(matrix::entries(a));
    assert forall|r: int, c: int| 0 <= r < n && 0 <= c < n implies #[trigger] et(r, c) == ta(r, c) by {
        assert(t.entry(r, c) == a.entry(c, r));
    }
    matrix::lemma_det_congruent(n, et, ta);
    lemma_det_transposed(n, matrix::entries(a));
}

/// The inverse is a left inverse: when `inv` holds the entries that
/// `TernaryMatrix::inverse` returns for a square `a` with nonzero
/// determinant, the product inv · a is the identity.
pub proof fn lemma_inverse_left(a: TernaryMatrix, inv: TernaryMatrix, prod: TernaryMatrix)
    requires
        a.rows == a.cols,
        matrix::det(a.rows as nat, matrix::entries(a)) != Ternary::Zero,
        inv.rows == a.rows,
        inv.cols == a.rows,
        forall|i: int, j: int|
            0 <= i < a.rows && 0 <= j < a.rows ==> #[trigger] inv.entry(i, j) == ternary::tmul(
                matrix::cofactor(a.rows as nat, matrix::entries(a), j, i),
                matrix::det(a.rows as nat, matrix::entries(a)),
            ),
        prod.rows == a.rows,
        prod.cols == a.rows,
        forall|i: int, j: int|
            0 <= i < a.rows && 0 <= j < a.rows ==> #[trigger] prod.entry(i, j) == matrix::mat_sum(
                matrix::entries(inv),
                matrix::entries(a),
                i,
                j,
                a.rows as nat,
            ),
    ensures
        forall|i: int, j: int| 0 <= i < a.rows && 0 <= j < a.rows ==> #[trigger] prod.entry(i, j) == matrix::ident()(i, j),
{
    assert forall|i: int, k: int| 0 <= i < a.rows && 0 <= k < a.rows implies #[trigger] prod.entry(i, k) == matrix::ident()(i, k) by {
        lemma_inverse_left_entry(a, inv, i, k);
    }
}

proof fn lemma_inverse_left_entry(a: TernaryMatrix, inv: TernaryMatrix, i: int, k: int)
    requires
        a.rows == a.cols,
        matrix::det(a.rows as nat, matrix::entries(a)) != Ternary::Zero,
        forall|i: int, j: int|
            0 <= i < a.rows && 0 <= j < a.rows ==> #[trigger] inv.entry(i, j) == ternary::tmul(
                matrix::cofactor(a.rows as nat, matrix::entries(a), j, i),
                matrix::det(a.rows as nat, matrix::entries(a)),
            ),
        0 <= i < a.rows,
        0 <= k < a.rows,
    ensures
        matrix::mat_sum(matrix::entries(inv), matrix::entries(a), i, k, a.rows as nat) == matrix::ident()(i, k),
{
    let n = a.rows as nat;
    let e = matrix::entries(a);
    let d = matrix::det(n, e);
    laplace::lemma_mat_sum_is_tsum(matrix::entries(inv), e, i, k, n);
    let terms = |j: int| ternary::tmul(matrix::entries(inv)(i, j), e(j, k));
    let base = |j: int| ternary::tmul(matrix::cofactor(n, e, j, i), e(j, k));
    assert forall|j: int| 0 <= j < n implies #[trigger] terms(j) == ternary::tmul(d, base(j)) by {
        assert(inv.entry(i, j) == ternary::tmul(matrix::cofactor(n, e, j, i), d));
        ternary::lemma_swap_last(matrix::cofactor(n, e, j, i), d, e(j, k));
        ternary::lemma_commutative(base(j), d);
    }
    laplace::lemma_tsum_congruent(n, |j: int| ternary::tmul(matrix::entries(inv)(i, j), e(j, k)), terms);
    laplace::lemma_tsum_scale(n, base, terms, d);
    lemma_adjugate_identity_columns(n, e, k, i);
    ternary::lemma_square_nonzero(d);
    ternary::lemma_mul_identity(d);
}

} // verus!
