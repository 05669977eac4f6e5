//! The pivot steps of row reduction can be undone: after each step the
//! input matrix is still a product of a transform with the reduced one,
//! so row reduction keeps the row space.

use vstd::prelude::*;
use crate::ternary::{self, Ternary};
use crate::matrix;
use crate::laplace;

verus! {

/// Changing one term of a sum changes the sum by the same amount:
/// Σ h + g(p) = Σ g + h(p) when g and h differ only at p.
pub proof fn lemma_tsum_update(n: nat, g: spec_fn(int) -> Ternary, h: spec_fn(int) -> Ternary, p: int)
    requires
        0 <= p < n,
        forall|j: int| 0 <= j < n && j != p ==> #[trigger] g(j) == h(j),
    ensures
        ternary::tadd(laplace::tsum(n, h), g(p)) == ternary::tadd(laplace::tsum(n, g), h(p)),
    decreases n,
{
    if p == n - 1 {
        laplace::lemma_tsum_congruent((n - 1) as nat, g, h);
        let x = laplace::tsum((n - 1) as nat, g);
        ternary::lemma_associative(x, h(p), g(p));
        ternary::lemma_associative(x, g(p), h(p));
        ternary::lemma_commutative(h(p), g(p));
    } else {
        lemma_tsum_update((n - 1) as nat, g, h, p);
        assert(g(n - 1) == h(n - 1));
        let (xg, xh, l) = (laplace::tsum((n - 1) as nat, g), laplace::tsum((n - 1) as nat, h), g(n - 1));
        ternary::lemma_associative(xh, l, g(p));
        ternary::lemma_commutative(l, g(p));
        ternary::lemma_associative(xh, g(p), l);
        ternary::lemma_associative(xg, h(p), l);
        ternary::lemma_commutative(h(p), l);
        ternary::lemma_associative(xg, l, h(p));
    }
}

/// `k` with `a` and `b` exchanged.
pub open spec fn swap_index(k: int, a: int, b: int) -> int {
    if k == a {
        b
    } else if k == b {
        a
    } else {
        k
    }
}

/// Exchanging two summation indices keeps the sum.
pub proof fn lemma_tsum_swap_indices(n: nat, g: spec_fn(int) -> Ternary, a: int, b: int)
    requires
        0 <= a < n,
        0 <= b < n,
    ensures
        laplace::tsum(n, |k: int| g(swap_index(k, a, b))) == laplace::tsum(n, g),
{
    let h = |k: int| g(swap_index(k, a, b));
    if a == b {
        laplace::lemma_tsum_congruent(n, h, g);
    } else {
        // h1 = g with position a changed to g(b); h = h1 with position b changed to g(a)
        let h1 = |k: int| if k == a { g(b) } else { g(k) };
        lemma_tsum_update(n, g, h1, a);
        assert forall|j: int| 0 <= j < n && j != b implies #[trigger] h1(j) == h(j) by {
        }
        lemma_tsum_update(n, h1, h, b);
        let (sg, s1, sh) = (laplace::tsum(n, g), laplace::tsum(n, h1), laplace::tsum(n, h));
        // s1 + g(a) = sg + g(b); sh + g(b) = s1 + g(a)  ==> sh + g(b) = sg + g(b)
        ternary::lemma_add_cancel(sh, sg, g(b));
    }
}

/// The transform `q` with columns `a` and `b` exchanged.
pub open spec fn undo_swap(q: spec_fn(int, int) -> Ternary, a: int, b: int) -> spec_fn(int, int) -> Ternary {
    |i: int, k: int| q(i, swap_index(k, a, b))
}

/// The transform `q` with column `r0` multiplied by `s`.
pub open spec fn undo_scale(q: spec_fn(int, int) -> Ternary, r0: int, s: Ternary) -> spec_fn(int, int) -> Ternary {
    |i: int, k: int| if k == r0 { ternary::tmul(q(i, k), s) } else { q(i, k) }
}

/// The multiplier that elimination used on row `t` (none on the pivot row).
pub open spec fn elim_factor(sc: spec_fn(int, int) -> Ternary, r0: int, col: int) -> spec_fn(int) -> Ternary {
    |t: int| if t == r0 { Ternary::Zero } else { sc(t, col) }
}

/// The transform `q` with column `r0` increased by Σ_t q(i, t) · factor(t).
pub open spec fn undo_elim(q: spec_fn(int, int) -> Ternary, sc: spec_fn(int, int) -> Ternary, r0: int, col: int, n: nat) -> spec_fn(int, int) -> Ternary {
    |i: int, k: int|
        if k == r0 {
            ternary::tadd(q(i, r0), laplace::tsum(n, |t: int| ternary::tmul(q(i, t), elim_factor(sc, r0, col)(t))))
        } else {
            q(i, k)
        }
}

/// The transform that undoes one pivot step of `matrix::pivot_step`.
pub open spec fn pivot_step_undo(
    q: spec_fn(int, int) -> Ternary,
    e: spec_fn(int, int) -> Ternary,
    r0: int,
    pr: int,
    col: int,
    s: Ternary,
    n: nat,
) -> spec_fn(int, int) -> Ternary {
    undo_elim(undo_scale(undo_swap(q, r0, pr), r0, s), matrix::scale_row(matrix::swap_rows(e, r0, pr), r0, s), r0, col, n)
}

proof fn lemma_undo_swap(
    q: spec_fn(int, int) -> Ternary,
    e: spec_fn(int, int) -> Ternary,
    a: spec_fn(int, int) -> Ternary,
    rows: nat,
    cols: nat,
    r0: int,
    pr: int,
)
    requires
        matrix::left_product(q, e, a, rows, cols),
        0 <= r0 < rows,
        0 <= pr < rows,
    ensures
        matrix::left_product(undo_swap(q, r0, pr), matrix::swap_rows(e, r0, pr), a, rows, cols),
{
    reveal(matrix::left_product);
    let q1 = undo_swap(q, r0, pr);
    let sw = matrix::swap_rows(e, r0, pr);
    assert forall|i: int, j: int| 0 <= i < rows && 0 <= j < cols implies #[trigger] a(i, j) == matrix::mat_sum(q1, sw, i, j, rows) by {
        laplace::lemma_mat_sum_is_tsum(q, e, i, j, rows);
        laplace::lemma_mat_sum_is_tsum(q1, sw, i, j, rows);
        let g = |k: int| ternary::tmul(q(i, k), e(k, j));
        lemma_tsum_swap_indices(rows, g, r0, pr);
        laplace::lemma_tsum_congruent(rows, |k: int| g(swap_index(k, r0, pr)), |k: int| ternary::tmul(q1(i, k), sw(k, j)));
    }
}

proof fn lemma_undo_scale(
    q: spec_fn(int, int) -> Ternary,
    e: spec_fn(int, int) -> Ternary,
    a: spec_fn(int, int) -> Ternary,
    rows: nat,
    cols: nat,
    r0: int,
    s: Ternary,
)
    requires
        matrix::left_product(q, e, a, rows, cols),
        s != Ternary::Zero,
    ensures
        matrix::left_product(undo_scale(q, r0, s), matrix::scale_row(e, r0, s), a, rows, cols),
{
    reveal(matrix::left_product);
    let q1 = undo_scale(q, r0, s);
    let sc = matrix::scale_row(e, r0, s);
    assert forall|i: int, j: int| 0 <= i < rows && 0 <= j < cols implies #[trigger] a(i, j) == matrix::mat_sum(q1, sc, i, j, rows) by {
        laplace::lemma_mat_sum_is_tsum(q, e, i, j, rows);
        laplace::lemma_mat_sum_is_tsum(q1, sc, i, j, rows);
        assert forall|k: int| 0 <= k < rows implies #[trigger] ternary::tmul(q(i, k), e(k, j)) == ternary::tmul(q1(i, k), sc(k, j)) by {
            if k == r0 {
                ternary::lemma_scale_cancel(q(i, k), e(k, j), s);
            }
        }
        laplace::lemma_tsum_congruent(rows, |k: int| ternary::tmul(q(i, k), e(k, j)), |k: int| ternary::tmul(q1(i, k), sc(k, j)));
    }
}

proof fn lemma_undo_elim(
    q: spec_fn(int, int) -> Ternary,
    sc: spec_fn(int, int) -> Ternary,
    a: spec_fn(int, int) -> Ternary,
    rows: nat,
    cols: nat,
    r0: int,
    col: int,
)
    requires
        matrix::left_product(q, sc, a, rows, cols),
        0 <= r0 < rows,
    ensures
        matrix::left_product(
            undo_elim(q, sc, r0, col, rows),
            |i: int, j: int| if i != r0 { ternary::tsub(sc(i, j), ternary::tmul(sc(i, col), sc(r0, j))) } else { sc(i, j) },
            a,
            rows,
            cols,
        ),
{
    reveal(matrix::left_product);
    let f = |i: int, j: int| if i != r0 { ternary::tsub(sc(i, j), ternary::tmul(sc(i, col), sc(r0, j))) } else { sc(i, j) };
    let q3 = undo_elim(q, sc, r0, col, rows);
    let fp = elim_factor(sc, r0, col);
    assert forall|i: int, j: int| 0 <= i < rows && 0 <= j < cols implies #[trigger] a(i, j) == matrix::mat_sum(q3, f, i, j, rows) by {
        laplace::lemma_mat_sum_is_tsum(q, sc, i, j, rows);
        laplace::lemma_mat_sum_is_tsum(q3, f, i, j, rows);
        let c = laplace::tsum(rows, |t: int| ternary::tmul(q(i, t), fp(t)));
        let y = f(r0, j);
        let base = |k: int| ternary::tmul(q(i, k), f(k, j));
        let extra = |k: int| ternary::tmul(y, ternary::tmul(q(i, k), fp(k)));
        let orig = |k: int| ternary::tmul(q(i, k), sc(k, j));
        // sc(k, j) = f(k, j) + fp(k) · f(r0, j)
        assert forall|k: int| 0 <= k < rows implies #[trigger] orig(k) == ternary::tadd(base(k), extra(k)) by {
            ternary::lemma_elim_undo_term(q(i, k), sc(k, j), fp(k), y, k == r0);
            if k != r0 {
                assert(f(k, j) == ternary::tsub(sc(k, j), ternary::tmul(fp(k), y)));
            }
        }
        laplace::lemma_tsum_add(rows, base, extra, orig);
        laplace::lemma_tsum_scale(rows, |t: int| ternary::tmul(q(i, t), fp(t)), extra, y);
        // Σ_k q3(i, k) f(k, j) = Σ base + c · y
        let single = |k: int| if k == r0 { ternary::tmul(c, y) } else { Ternary::Zero };
        let newterms = |k: int| ternary::tmul(q3(i, k), f(k, j));
        assert forall|k: int| 0 <= k < rows implies #[trigger] newterms(k) == ternary::tadd(base(k), single(k)) by {
            if k == r0 {
                ternary::lemma_distributive_right(q(i, r0), c, y);
            } else {
                ternary::lemma_add_identity(base(k));
            }
        }
        laplace::lemma_tsum_add(rows, base, single, newterms);
        laplace::lemma_tsum_single(rows, single, r0);
        ternary::lemma_commutative(c, y);
    }
}

/// One pivot step can be undone: if `a = q · e`, then `a` is the undoing
/// transform times the result of the pivot step.
pub proof fn lemma_pivot_step_undo(
    q: spec_fn(int, int) -> Ternary,
    e: spec_fn(int, int) -> Ternary,
    a: spec_fn(int, int) -> Ternary,
    rows: nat,
    cols: nat,
    r0: int,
    pr: int,
    col: int,
    s: Ternary,
)
    requires
        matrix::left_product(q, e, a, rows, cols),
        0 <= r0 < rows,
        0 <= pr < rows,
        s != Ternary::Zero,
    ensures
        matrix::left_product(pivot_step_undo(q, e, r0, pr, col, s, rows), matrix::pivot_step(e, r0, pr, col, s), a, rows, cols),
{
    reveal(matrix::left_product);
    let sw = matrix::swap_rows(e, r0, pr);
    let sc = matrix::scale_row(sw, r0, s);
    lemma_undo_swap(q, e, a, rows, cols, r0, pr);
    lemma_undo_scale(undo_swap(q, r0, pr), sw, a, rows, cols, r0, s);
    lemma_undo_elim(undo_scale(undo_swap(q, r0, pr), r0, s), sc, a, rows, cols, r0, col);
    let f1 = |i: int, j: int| if i != r0 { ternary::tsub(sc(i, j), ternary::tmul(sc(i, col), sc(r0, j))) } else { sc(i, j) };
    let f2 = matrix::pivot_step(e, r0, pr, col, s);
    let qq = pivot_step_undo(q, e, r0, pr, col, s, rows);
    assert forall|i: int, j: int| 0 <= i < rows && 0 <= j < cols implies #[trigger] a(i, j) == matrix::mat_sum(qq, f2, i, j, rows) by {
        assert(a(i, j) == matrix::mat_sum(qq, f1, i, j, rows));
        assert forall|k: int| 0 <= k < rows implies #[trigger] f1(k, j) == f2(k, j) by {
        }
        matrix::lemma_sum_same_right(qq, f1, f2, i, j, rows);
    }
}

} // verus!
