//! Cofactor expansion along any row, and the adjugate identity
//! A · adj(A) = det(A) · I, from which the inverse is a right inverse.
//!
//! The determinant is defined by expansion along the first row (see
//! `matrix::det`). Exchanging two adjacent rows negates it; rotating a row
//! to the top then gives the expansion along that row, and a matrix with two
//! equal rows has determinant zero.

use vstd::prelude::*;
use crate::ternary::{self, Ternary};
use crate::matrix::{self, TernaryMatrix};

verus! {

/// Σ_{j < n} f(j) in Z/3Z, accumulated left to right.
pub open spec fn tsum(n: nat, f: spec_fn(int) -> Ternary) -> Ternary
    decreases n,
{
    if n == 0 {
        Ternary::Zero
    } else {
        ternary::tadd(tsum((n - 1) as nat, f), f(n - 1))
    }
}

/// Sums with equal terms are equal.
pub proof fn lemma_tsum_congruent(n: nat, f: spec_fn(int) -> Ternary, g: spec_fn(int) -> Ternary)
    requires
        forall|j: int| 0 <= j < n ==> #[trigger] f(j) == g(j),
    ensures
        tsum(n, f) == tsum(n, g),
    decreases n,
{
    if n > 0 {
        lemma_tsum_congruent((n - 1) as nat, f, g);
        assert(f(n - 1) == g(n - 1));
    }
}

/// Negating every term negates the sum.
pub proof fn lemma_tsum_neg(n: nat, f: spec_fn(int) -> Ternary, g: spec_fn(int) -> Ternary)
    requires
        forall|j: int| 0 <= j < n ==> #[trigger] g(j) == ternary::tneg(f(j)),
    ensures
        tsum(n, g) == ternary::tneg(tsum(n, f)),
    decreases n,
{
    if n > 0 {
        lemma_tsum_neg((n - 1) as nat, f, g);
        assert(g(n - 1) == ternary::tneg(f(n - 1)));
        ternary::lemma_neg_add(tsum((n - 1) as nat, f), f(n - 1));
    }
}


/// Multiplying every term by s multiplies the sum by s.
pub proof fn lemma_tsum_scale(n: nat, f: spec_fn(int) -> Ternary, g: spec_fn(int) -> Ternary, s: Ternary)
    requires
        forall|j: int| 0 <= j < n ==> #[trigger] g(j) == ternary::tmul(s, f(j)),
    ensures
        tsum(n, g) == ternary::tmul(s, tsum(n, f)),
    decreases n,
{
    if n > 0 {
        lemma_tsum_scale((n - 1) as nat, f, g, s);
        assert(g(n - 1) == ternary::tmul(s, f(n - 1)));
        ternary::lemma_distributive(s, tsum((n - 1) as nat, f), f(n - 1));
    }
}

/// The sum of termwise sums is the sum of the sums.
pub proof fn lemma_tsum_add(n: nat, f: spec_fn(int) -> Ternary, g: spec_fn(int) -> Ternary, h: spec_fn(int) -> Ternary)
    requires
        forall|j: int| 0 <= j < n ==> #[trigger] h(j) == ternary::tadd(f(j), g(j)),
    ensures
        tsum(n, h) == ternary::tadd(tsum(n, f), tsum(n, g)),
    decreases n,
{
    if n > 0 {
        lemma_tsum_add((n - 1) as nat, f, g, h);
        assert(h(n - 1) == ternary::tadd(f(n - 1), g(n - 1)));
        ternary::lemma_add_swap_middle(tsum((n - 1) as nat, f), tsum((n - 1) as nat, g), f(n - 1), g(n - 1));
    }
}


/// A sum whose terms vanish except at `k` is the term at `k`.
pub proof fn lemma_tsum_single(n: nat, f: spec_fn(int) -> Ternary, k: int)
    requires
        0 <= k < n,
        forall|j: int| 0 <= j < n && j != k ==> #[trigger] f(j) == Ternary::Zero,
    ensures
        tsum(n, f) == f(k),
    decreases n,
{
    if n - 1 == k {
        lemma_tsum_zero((n - 1) as nat, f);
        ternary::lemma_add_identity(f(k));
    } else {
        lemma_tsum_single((n - 1) as nat, f, k);
        assert(f(n - 1) == Ternary::Zero);
        ternary::lemma_add_identity(f(k));
    }
}

/// A sum of zeros is zero.
pub proof fn lemma_tsum_zero(n: nat, f: spec_fn(int) -> Ternary)
    requires
        forall|j: int| 0 <= j < n ==> #[trigger] f(j) == Ternary::Zero,
    ensures
        tsum(n, f) == Ternary::Zero,
    decreases n,
{
    if n > 0 {
        lemma_tsum_zero((n - 1) as nat, f);
        assert(f(n - 1) == Ternary::Zero);
    }
}

/// Leaving out the term at `a`: Σ_{b < n} g(b) = Σ_{d < n-1} g(skip(d, a)) + g(a).
pub proof fn lemma_tsum_skip(n: nat, g: spec_fn(int) -> Ternary, a: int)
    requires
        0 <= a < n,
    ensures
        tsum(n, g) == ternary::tadd(tsum((n - 1) as nat, |d: int| g(matrix::skip(d, a))), g(a)),
    decreases n,
{
    let h = |d: int| g(matrix::skip(d, a));
    if a == n - 1 {
        assert forall|d: int| 0 <= d < n - 1 implies #[trigger] h(d) == g(d) by {
        }
        lemma_tsum_congruent((n - 1) as nat, h, g);
    } else {
        lemma_tsum_skip((n - 1) as nat, g, a);
        let h2 = |d: int| g(matrix::skip(d, a));
        assert(h2(n - 2) == g(n - 1));
        assert(tsum((n - 1) as nat, h) == ternary::tadd(tsum((n - 2) as nat, h), g(n - 1)));
        let x = tsum((n - 2) as nat, h);
        ternary::lemma_associative(x, g(a), g(n - 1));
        ternary::lemma_commutative(g(a), g(n - 1));
        ternary::lemma_associative(x, g(n - 1), g(a));
    }
}

/// Finite sums can be exchanged: Σ_a Σ_b f(a, b) = Σ_b Σ_a f(a, b).
pub proof fn lemma_tsum_exchange(n: nat, m: nat, f: spec_fn(int, int) -> Ternary)
    ensures
        tsum(n, |a: int| tsum(m, |b: int| f(a, b))) == tsum(m, |b: int| tsum(n, |a: int| f(a, b))),
    decreases n,
{
    if n == 0 {
        lemma_tsum_zero(m, |b: int| tsum(0, |a: int| f(a, b)));
    } else {
        lemma_tsum_exchange((n - 1) as nat, m, f);
        lemma_tsum_add(
            m,
            |b: int| tsum((n - 1) as nat, |a: int| f(a, b)),
            |b: int| f(n - 1, b),
            |b: int| tsum(n, |a: int| f(a, b)),
        );
    }
}

/// The term for column `c` in the first-row expansion of `det(n, e)`.
pub open spec fn cterm(n: nat, e: spec_fn(int, int) -> Ternary, c: int) -> Ternary {
    ternary::tmul(
        ternary::tmul(matrix::sign(c), e(0, c)),
        matrix::det((n - 1) as nat, matrix::minor_of(e, 0, c)),
    )
}

/// The partial first-row expansion is a sum of its terms.
pub proof fn lemma_cofactor_sum_is_tsum(n: nat, e: spec_fn(int, int) -> Ternary, k: nat)
    requires
        n > 0,
    ensures
        matrix::cofactor_sum(n, e, k) == tsum(k, |c: int| cterm(n, e, c)),
    decreases k,
{
    if k > 0 {
        lemma_cofactor_sum_is_tsum(n, e, (k - 1) as nat);
    }
}

/// The determinant is the sum of its first-row terms.
pub proof fn lemma_det_is_tsum(n: nat, e: spec_fn(int, int) -> Ternary)
    requires
        n > 0,
    ensures
        matrix::det(n, e) == tsum(n, |c: int| cterm(n, e, c)),
{
    lemma_cofactor_sum_is_tsum(n, e, n);
}

/// (-1)^a · (-1)^b = (-1)^(a+b).
pub proof fn lemma_sign_add(a: int, b: int)
    ensures
        ternary::tmul(matrix::sign(a), matrix::sign(b)) == matrix::sign(a + b),
{
}

/// Column `c` of the matrix left after deleting columns `lo < hi`.
pub open spec fn skip2(c: int, lo: int, hi: int) -> int {
    if c < lo {
        c
    } else if c + 1 < hi {
        c + 1
    } else {
        c + 2
    }
}

/// `e` without its first two rows and without columns `a` and `b`.
pub open spec fn drop2(e: spec_fn(int, int) -> Ternary, a: int, b: int) -> spec_fn(int, int) -> Ternary {
    let lo = if a < b { a } else { b };
    let hi = if a < b { b } else { a };
    |r: int, c: int| e(r + 2, skip2(c, lo, hi))
}

/// The sign of the term with e(0, a) · e(1, b) in the two-row expansion.
pub open spec fn sigma(a: int, b: int) -> Ternary {
    matrix::sign(a + b + if b > a { 1int } else { 0int })
}

/// The term with e(0, a) · e(1, b) in the expansion of `det(n, e)` along its
/// first two rows.
pub open spec fn gterm(n: nat, e: spec_fn(int, int) -> Ternary, a: int, b: int) -> Ternary {
    if a == b {
        Ternary::Zero
    } else {
        ternary::tmul(
            ternary::tmul(ternary::tmul(sigma(a, b), e(0, a)), e(1, b)),
            matrix::det((n - 2) as nat, drop2(e, a, b)),
        )
    }
}

/// Deleting column `a`, then column `d` of what is left, deletes columns
/// `a` and `skip(d, a)`.
proof fn lemma_skip_twice(c: int, d: int, a: int)
    requires
        0 <= c,
        0 <= d,
        0 <= a,
    ensures
        ({
            let b = matrix::skip(d, a);
            let lo = if a < b { a } else { b };
            let hi = if a < b { b } else { a };
            matrix::skip(matrix::skip(c, d), a) == skip2(c, lo, hi)
        }),
{
}

/// Expanding along the first row and then along the first row of each minor
/// writes the determinant as a double sum of two-row terms.
pub proof fn lemma_det_two_rows(n: nat, e: spec_fn(int, int) -> Ternary)
    requires
        n >= 2,
    ensures
        matrix::det(n, e) == tsum(n, |a: int| tsum(n, |b: int| gterm(n, e, a, b))),
{
    lemma_det_is_tsum(n, e);
    assert forall|a: int| 0 <= a < n implies #[trigger] cterm(n, e, a) == tsum(n, |b: int| gterm(n, e, a, b)) by {
        lemma_cterm_two_rows(n, e, a);
    }
    lemma_tsum_congruent(n, |c: int| cterm(n, e, c), |a: int| tsum(n, |b: int| gterm(n, e, a, b)));
}

proof fn lemma_cterm_two_rows(n: nat, e: spec_fn(int, int) -> Ternary, a: int)
    requires
        n >= 2,
        0 <= a < n,
    ensures
        cterm(n, e, a) == tsum(n, |b: int| gterm(n, e, a, b)),
{
    let m = matrix::minor_of(e, 0, a);
    let x = ternary::tmul(matrix::sign(a), e(0, a));
    lemma_det_is_tsum((n - 1) as nat, m);
    let inner = |d: int| cterm((n - 1) as nat, m, d);
    let scaled = |d: int| ternary::tmul(x, inner(d));
    lemma_tsum_scale((n - 1) as nat, inner, scaled, x);
    let g = |b: int| gterm(n, e, a, b);
    assert forall|d: int| 0 <= d < n - 1 implies #[trigger] scaled(d) == g(matrix::skip(d, a)) by {
        lemma_gterm_from_minor(n, e, a, d);
    }
    lemma_tsum_skip(n, g, a);
    lemma_tsum_congruent((n - 1) as nat, scaled, |d: int| g(matrix::skip(d, a)));
    ternary::lemma_add_identity(tsum((n - 1) as nat, |d: int| g(matrix::skip(d, a))));
}

proof fn lemma_gterm_from_minor(n: nat, e: spec_fn(int, int) -> Ternary, a: int, d: int)
    requires
        n >= 2,
        0 <= a < n,
        0 <= d < n - 1,
    ensures
        ternary::tmul(
            ternary::tmul(matrix::sign(a), e(0, a)),
            cterm((n - 1) as nat, matrix::minor_of(e, 0, a), d),
        ) == gterm(n, e, a, matrix::skip(d, a)),
{
    let m = matrix::minor_of(e, 0, a);
    let b = matrix::skip(d, a);
    let mm = matrix::minor_of(m, 0, d);
    let dd = drop2(e, a, b);
    assert forall|r: int, c: int| 0 <= r < n - 2 && 0 <= c < n - 2 implies #[trigger] mm(r, c) == dd(r, c) by {
        lemma_skip_twice(c, d, a);
    }
    matrix::lemma_det_congruent((n - 2) as nat, mm, dd);
    lemma_sign_add(a, d);
    assert(m(0, d) == e(1, b));
    assert(sigma(a, b) == matrix::sign(a + d));
    ternary::lemma_mul_regroup(matrix::sign(a), e(0, a), matrix::sign(d), e(1, b), matrix::det((n - 2) as nat, dd));
}



/// Exchanging the first two rows negates each two-row term, with its
/// column pair reversed.
proof fn lemma_gterm_swap(n: nat, e: spec_fn(int, int) -> Ternary, a: int, b: int)
    requires
        n >= 2,
    ensures
        gterm(n, matrix::swap_rows(e, 0, 1), a, b) == ternary::tneg(gterm(n, e, b, a)),
{
    let f = matrix::swap_rows(e, 0, 1);
    if a != b {
        let d1 = drop2(f, a, b);
        let d2 = drop2(e, b, a);
        assert forall|r: int, c: int| 0 <= r < n - 2 && 0 <= c < n - 2 implies #[trigger] d1(r, c) == d2(r, c) by {
        }
        matrix::lemma_det_congruent((n - 2) as nat, d1, d2);
        assert(f(0, a) == e(1, a));
        assert(f(1, b) == e(0, b));
        assert(sigma(a, b) == ternary::tneg(sigma(b, a)));
        ternary::lemma_term_reverse(sigma(b, a), e(0, b), e(1, a), matrix::det((n - 2) as nat, d2));
    }
}


/// Exchanging the first two rows negates the determinant.
proof fn lemma_det_swap_first_two(n: nat, e: spec_fn(int, int) -> Ternary)
    requires
        n >= 2,
    ensures
        matrix::det(n, matrix::swap_rows(e, 0, 1)) == ternary::tneg(matrix::det(n, e)),
{
    let f = matrix::swap_rows(e, 0, 1);
    lemma_det_two_rows(n, e);
    lemma_det_two_rows(n, f);
    // Σ_a Σ_b g_f(a, b) = Σ_a Σ_b -g_e(b, a) = -(Σ_a Σ_b g_e(b, a)) = -(Σ_b Σ_a g_e(b, a))
    let inner_f = |a: int| tsum(n, |b: int| gterm(n, f, a, b));
    let inner_t = |a: int| tsum(n, |b: int| gterm(n, e, b, a));
    assert forall|a: int| 0 <= a < n implies #[trigger] inner_f(a) == ternary::tneg(inner_t(a)) by {
        assert forall|b: int| 0 <= b < n implies #[trigger] gterm(n, f, a, b) == ternary::tneg(gterm(n, e, b, a)) by {
            lemma_gterm_swap(n, e, a, b);
        }
        lemma_tsum_neg(n, |b: int| gterm(n, e, b, a), |b: int| gterm(n, f, a, b));
    }
    lemma_tsum_neg(n, inner_t, inner_f);
    let ff = |x: int, y: int| gterm(n, e, x, y);
    lemma_tsum_exchange(n, n, ff);
    let lhs = |x: int| tsum(n, |y: int| ff(x, y));
    let rhs = |y: int| tsum(n, |x: int| ff(x, y));
    let det_form = |a: int| tsum(n, |b: int| gterm(n, e, a, b));
    assert forall|x: int| 0 <= x < n implies #[trigger] lhs(x) == det_form(x) by {
        lemma_tsum_congruent(n, |y: int| ff(x, y), |b: int| gterm(n, e, x, b));
    }
    lemma_tsum_congruent(n, lhs, det_form);
    assert forall|y: int| 0 <= y < n implies #[trigger] rhs(y) == inner_t(y) by {
        lemma_tsum_congruent(n, |x: int| ff(x, y), |b: int| gterm(n, e, b, y));
    }
    lemma_tsum_congruent(n, rhs, inner_t);
}

/// Exchanging two adjacent rows negates the determinant.
pub proof fn lemma_det_swap_adjacent(n: nat, e: spec_fn(int, int) -> Ternary, k: int)
    requires
        0 <= k,
        k + 1 < n,
    ensures
        matrix::det(n, matrix::swap_rows(e, k, k + 1)) == ternary::tneg(matrix::det(n, e)),
    decreases n,
{
    if k == 0 {
        lemma_det_swap_first_two(n, e);
    } else {
        let f = matrix::swap_rows(e, k, k + 1);
        lemma_det_is_tsum(n, e);
        lemma_det_is_tsum(n, f);
        assert forall|c: int| 0 <= c < n implies #[trigger] cterm(n, f, c) == ternary::tneg(cterm(n, e, c)) by {
            let mf = matrix::minor_of(f, 0, c);
            let me = matrix::minor_of(e, 0, c);
            let sm = matrix::swap_rows(me, k - 1, k);
            assert forall|r: int, q: int| 0 <= r < n - 1 && 0 <= q < n - 1 implies #[trigger] mf(r, q) == sm(r, q) by {
            }
            matrix::lemma_det_congruent((n - 1) as nat, mf, sm);
            lemma_det_swap_adjacent((n - 1) as nat, me, k - 1);
            assert(f(0, c) == e(0, c));
            ternary::lemma_neg_mul(ternary::tmul(matrix::sign(c), e(0, c)), matrix::det((n - 1) as nat, me));
        }
        lemma_tsum_neg(n, |c: int| cterm(n, e, c), |c: int| cterm(n, f, c));
    }
}


/// `e` with row `k` moved to the top and rows `0..k` moved down by one.
pub open spec fn rotate_to_top(e: spec_fn(int, int) -> Ternary, k: int) -> spec_fn(int, int) -> Ternary {
    |r: int, c: int| if r == 0 { e(k, c) } else if r <= k { e(r - 1, c) } else { e(r, c) }
}

/// Moving row `k` to the top multiplies the determinant by (-1)^k.
pub proof fn lemma_det_rotate(n: nat, e: spec_fn(int, int) -> Ternary, k: int)
    requires
        0 <= k < n,
    ensures
        matrix::det(n, rotate_to_top(e, k)) == ternary::tmul(matrix::sign(k), matrix::det(n, e)),
    decreases k,
{
    let rot = rotate_to_top(e, k);
    if k == 0 {
        assert forall|r: int, c: int| 0 <= r < n && 0 <= c < n implies #[trigger] rot(r, c) == e(r, c) by {
        }
        matrix::lemma_det_congruent(n, rot, e);
        ternary::lemma_mul_identity(matrix::det(n, e));
    } else {
        let sw = matrix::swap_rows(e, k - 1, k);
        let rot2 = rotate_to_top(sw, k - 1);
        assert forall|r: int, c: int| 0 <= r < n && 0 <= c < n implies #[trigger] rot(r, c) == rot2(r, c) by {
        }
        matrix::lemma_det_congruent(n, rot, rot2);
        lemma_det_rotate(n, sw, k - 1);
        lemma_det_swap_adjacent(n, e, k - 1);
        let d = matrix::det(n, e);
        ternary::lemma_neg_mul(matrix::sign(k - 1), d);
        assert(matrix::sign(k) == ternary::tneg(matrix::sign(k - 1)));
        ternary::lemma_neg_mul(matrix::sign(k - 1), d);
    }
}

/// The term for column `j` in the expansion of `det(n, e)` along row `k`:
/// e(k, j) times the (k, j) cofactor.
pub open spec fn row_term(n: nat, e: spec_fn(int, int) -> Ternary, k: int, j: int) -> Ternary {
    ternary::tmul(e(k, j), matrix::cofactor(n, e, k, j))
}

/// Cofactor expansion along any row gives the determinant.
pub proof fn lemma_laplace_row(n: nat, e: spec_fn(int, int) -> Ternary, k: int)
    requires
        0 <= k < n,
    ensures
        tsum(n, |j: int| row_term(n, e, k, j)) == matrix::det(n, e),
{
    let rot = rotate_to_top(e, k);
    lemma_det_rotate(n, e, k);
    lemma_det_is_tsum(n, rot);
    let sk = matrix::sign(k);
    // each first-row term of the rotated matrix is (-1)^k times a row-k term
    assert forall|j: int| 0 <= j < n implies #[trigger] row_term(n, e, k, j) == ternary::tmul(sk, cterm(n, rot, j)) by {
        let mr = matrix::minor_of(rot, 0, j);
        let me = matrix::minor_of(e, k, j);
        assert forall|r: int, c: int| 0 <= r < n - 1 && 0 <= c < n - 1 implies #[trigger] mr(r, c) == me(r, c) by {
        }
        matrix::lemma_det_congruent((n - 1) as nat, mr, me);
        lemma_sign_add(k, j);
        ternary::lemma_row_term_regroup(sk, matrix::sign(j), e(k, j), matrix::det((n - 1) as nat, me));
    }
    lemma_tsum_scale(n, |j: int| cterm(n, rot, j), |j: int| row_term(n, e, k, j), sk);
    // det(e) = sk · (sk · det(e))
    ternary::lemma_sign_twice(sk, matrix::det(n, e));
}


/// Exchanging any two rows negates the determinant.
pub proof fn lemma_det_swap(n: nat, e: spec_fn(int, int) -> Ternary, i: int, j: int)
    requires
        0 <= i < j < n,
    ensures
        matrix::det(n, matrix::swap_rows(e, i, j)) == ternary::tneg(matrix::det(n, e)),
    decreases j - i,
{
    if j == i + 1 {
        lemma_det_swap_adjacent(n, e, i);
    } else {
        // (i j) = (i i+1)(i+1 j)(i i+1)
        let f1 = matrix::swap_rows(e, i, i + 1);
        let f2 = matrix::swap_rows(f1, i + 1, j);
        let f3 = matrix::swap_rows(f2, i, i + 1);
        let target = matrix::swap_rows(e, i, j);
        assert forall|r: int, c: int| 0 <= r < n && 0 <= c < n implies #[trigger] f3(r, c) == target(r, c) by {
        }
        matrix::lemma_det_congruent(n, f3, target);
        lemma_det_swap_adjacent(n, e, i);
        lemma_det_swap(n, f1, i + 1, j);
        lemma_det_swap_adjacent(n, f2, i);
        ternary::lemma_neg_involution(matrix::det(n, e));
    }
}

/// A matrix with two equal rows has determinant zero.
pub proof fn lemma_det_equal_rows(n: nat, e: spec_fn(int, int) -> Ternary, i: int, j: int)
    requires
        0 <= i < j < n,
        forall|c: int| 0 <= c < n ==> #[trigger] e(i, c) == e(j, c),
    ensures
        matrix::det(n, e) == Ternary::Zero,
{
    let sw = matrix::swap_rows(e, i, j);
    assert forall|r: int, c: int| 0 <= r < n && 0 <= c < n implies #[trigger] sw(r, c) == e(r, c) by {
        if r == i {
            assert(e(j, c) == e(i, c));
        } else if r == j {
            assert(e(i, c) == e(j, c));
        }
    }
    matrix::lemma_det_congruent(n, sw, e);
    lemma_det_swap(n, e, i, j);
    ternary::lemma_self_neg_zero(matrix::det(n, e));
}

/// A · adj(A) = det(A) · I: expanding row `i` of `e` against the cofactors
/// of row `k` gives the determinant when i = k and zero otherwise.
pub proof fn lemma_adjugate_identity(n: nat, e: spec_fn(int, int) -> Ternary, i: int, k: int)
    requires
        0 <= i < n,
        0 <= k < n,
    ensures
        tsum(n, |j: int| ternary::tmul(e(i, j), matrix::cofactor(n, e, k, j))) == if i == k {
            matrix::det(n, e)
        } else {
            Ternary::Zero
        },
{
    if i == k {
        lemma_tsum_congruent(n, |j: int| ternary::tmul(e(i, j), matrix::cofactor(n, e, k, j)), |j: int| row_term(n, e, k, j));
        lemma_laplace_row(n, e, k);
    } else {
        let f = |r: int, c: int| if r == k { e(i, c) } else { e(r, c) };
        assert forall|j: int| 0 <= j < n implies #[trigger] row_term(n, f, k, j) == ternary::tmul(e(i, j), matrix::cofactor(n, e, k, j)) by {
            let mf = matrix::minor_of(f, k, j);
            let me = matrix::minor_of(e, k, j);
            assert forall|r: int, c: int| 0 <= r < n - 1 && 0 <= c < n - 1 implies #[trigger] mf(r, c) == me(r, c) by {
            }
            matrix::lemma_det_congruent((n - 1) as nat, mf, me);
        }
        lemma_laplace_row(n, f, k);
        lemma_tsum_congruent(n, |j: int| row_term(n, f, k, j), |j: int| ternary::tmul(e(i, j), matrix::cofactor(n, e, k, j)));
        if i < k {
            assert forall|c: int| 0 <= c < n implies #[trigger] f(i, c) == f(k, c) by {
            }
            lemma_det_equal_rows(n, f, i, k);
        } else {
            assert forall|c: int| 0 <= c < n implies #[trigger] f(k, c) == f(i, c) by {
            }
            lemma_det_equal_rows(n, f, k, i);
        }
    }
}

/// Product entries are sums of products.
pub proof fn lemma_mat_sum_is_tsum(x: spec_fn(int, int) -> Ternary, y: spec_fn(int, int) -> Ternary, r: int, c: int, n: nat)
    ensures
        matrix::mat_sum(x, y, r, c, n) == tsum(n, |j: int| ternary::tmul(x(r, j), y(j, c))),
    decreases n,
{
    if n > 0 {
        lemma_mat_sum_is_tsum(x, y, r, c, (n - 1) as nat);
    }
}

/// The inverse is a right inverse: when `inv` holds the entries that
/// `TernaryMatrix::inverse` returns for a square `a` with nonzero
/// determinant, the product a · inv is the identity.
pub proof fn lemma_inverse_right(a: TernaryMatrix, inv: TernaryMatrix, prod: TernaryMatrix)
    requires
        a.rows == a.cols,
        matrix::det(a.rows as nat, matrix::entries(a)) != Ternary::Zero,
        inv.rows == a.rows,
        inv.cols == a.rows,
        forall|i: int, j: int|
            0 <= i < a.rows && 0 <= j < a.rows ==> #[trigger] inv.entry(i, j) == ternary::tmul(
                matrix::cofactor(a.rows as nat, matrix::entries(a), j, i),
                matrix::det(a.rows as nat, matrix::entries(a)),
            ),
        prod.rows == a.rows,
        prod.cols == a.rows,
        forall|i: int, j: int|
            0 <= i < a.rows && 0 <= j < a.rows ==> #[trigger] prod.entry(i, j) == matrix::mat_sum(
                matrix::entries(a),
                matrix::entries(inv),
                i,
                j,
                a.rows as nat,
            ),
    ensures
        forall|i: int, j: int| 0 <= i < a.rows && 0 <= j < a.rows ==> #[trigger] prod.entry(i, j) == matrix::ident()(i, j),
{
    assert forall|i: int, k: int| 0 <= i < a.rows && 0 <= k < a.rows implies #[trigger] prod.entry(i, k) == matrix::ident()(i, k) by {
        lemma_inverse_entry(a, inv, i, k);
    }
}

proof fn lemma_inverse_entry(a: TernaryMatrix, inv: TernaryMatrix, i: int, k: int)
    requires
        a.rows == a.cols,
        matrix::det(a.rows as nat, matrix::entries(a)) != Ternary::Zero,
        forall|i: int, j: int|
            0 <= i < a.rows && 0 <= j < a.rows ==> #[trigger] inv.entry(i, j) == ternary::tmul(
                matrix::cofactor(a.rows as nat, matrix::entries(a), j, i),
                matrix::det(a.rows as nat, matrix::entries(a)),
            ),
        0 <= i < a.rows,
        0 <= k < a.rows,
    ensures
        matrix::mat_sum(matrix::entries(a), matrix::entries(inv), i, k, a.rows as nat) == matrix::ident()(i, k),
{
    let n = a.rows as nat;
    let e = matrix::entries(a);
    let d = matrix::det(n, e);
    lemma_mat_sum_is_tsum(e, matrix::entries(inv), i, k, n);
    let terms = |j: int| ternary::tmul(e(i, j), matrix::entries(inv)(j, k));
    let base = |j: int| ternary::tmul(e(i, j), matrix::cofactor(n, e, k, j));
    assert forall|j: int| 0 <= j < n implies #[trigger] terms(j) == ternary::tmul(d, base(j)) by {
        assert(inv.entry(j, k) == ternary::tmul(matrix::cofactor(n, e, k, j), d));
        ternary::lemma_scale_regroup(e(i, j), matrix::cofactor(n, e, k, j), d);
    }
    lemma_tsum_congruent(n, |j: int| ternary::tmul(e(i, j), matrix::entries(inv)(j, k)), terms);
    lemma_tsum_scale(n, base, terms, d);
    lemma_adjugate_identity(n, e, i, k);
    ternary::lemma_square_nonzero(d);
    ternary::lemma_mul_identity(d);
}


} // verus!
