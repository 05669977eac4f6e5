//! Matrices over Z/3Z: multiplication, transpose, determinant, inverse
//! (when it exists) and row reduction.

use vstd::prelude::*;
use crate::ternary::{self, Ternary};

verus! {

/// `r * cols + c` stays inside a `rows × cols` layout, and distinct
/// positions have distinct offsets.
pub proof fn lemma_index_bounds(r: int, c: int, rows: int, cols: int)
    requires
        0 <= r < rows,
        0 <= c < cols,
    ensures
        0 <= r * cols + c < rows * cols,
        r * cols <= r * cols + c,
        (r + 1) * cols == r * cols + cols,
{
    assert(0 <= r * cols) by (nonlinear_arith)
        requires
            0 <= r,
            0 <= c < cols,
    ;
    assert(r * cols + c < rows * cols) by (nonlinear_arith)
        requires
            0 <= r < rows,
            0 <= c < cols,
    ;
    assert((r + 1) * cols == r * cols + cols) by (nonlinear_arith);
}

/// Distinct positions of a layout with `cols` columns have distinct offsets.
pub proof fn lemma_index_injective(r1: int, c1: int, r2: int, c2: int, cols: int)
    requires
        0 <= r1,
        0 <= r2,
        0 <= c1 < cols,
        0 <= c2 < cols,
        r1 * cols + c1 == r2 * cols + c2,
    ensures
        r1 == r2,
        c1 == c2,
{
    if r1 < r2 {
        assert(r1 * cols + c1 < r2 * cols + c2) by (nonlinear_arith)
            requires
                0 <= r1 < r2,
                0 <= c1 < cols,
                0 <= c2 < cols,
        ;
    } else if r2 < r1 {
        assert(r2 * cols + c2 < r1 * cols + c1) by (nonlinear_arith)
            requires
                0 <= r2 < r1,
                0 <= c1 < cols,
                0 <= c2 < cols,
        ;
    }
}


/// Σ_{i < k} x(r, i) · y(i, c), accumulated left to right in Z/3Z: the
/// (r, c) entry of the product x · y when the inner dimension is k.
pub open spec fn mat_sum(
    x: spec_fn(int, int) -> Ternary,
    y: spec_fn(int, int) -> Ternary,
    r: int,
    c: int,
    k: nat,
) -> Ternary
    decreases k,
{
    if k == 0 {
        Ternary::Zero
    } else {
        ternary::tadd(mat_sum(x, y, r, c, (k - 1) as nat), ternary::tmul(x(r, k - 1), y(k - 1, c)))
    }
}

/// The identity matrix as a function of (row, column).
pub open spec fn ident() -> spec_fn(int, int) -> Ternary {
    |r: int, c: int| if r == c { Ternary::Pos } else { Ternary::Zero }
}

/// `f` with rows `a` and `b` exchanged.
pub open spec fn swap_rows(f: spec_fn(int, int) -> Ternary, a: int, b: int) -> spec_fn(int, int) -> Ternary {
    |i: int, j: int| f(if i == a { b } else if i == b { a } else { i }, j)
}

/// `f` with row `a` multiplied by `s`.
pub open spec fn scale_row(f: spec_fn(int, int) -> Ternary, a: int, s: Ternary) -> spec_fn(int, int) -> Ternary {
    |i: int, j: int| if i == a { ternary::tmul(f(i, j), s) } else { f(i, j) }
}

/// `f` with `fac` times row `p` subtracted from row `r`.
pub open spec fn sub_row(f: spec_fn(int, int) -> Ternary, r: int, fac: Ternary, p: int) -> spec_fn(
    int,
    int,
) -> Ternary {
    |i: int, j: int| if i == r { ternary::tsub(f(i, j), ternary::tmul(fac, f(p, j))) } else { f(i, j) }
}

/// Sums whose terms agree are equal.
pub proof fn lemma_sum_same_terms(
    x1: spec_fn(int, int) -> Ternary,
    x2: spec_fn(int, int) -> Ternary,
    a: spec_fn(int, int) -> Ternary,
    r1: int,
    r2: int,
    c: int,
    n: nat,
)
    requires
        forall|k: int| 0 <= k < n ==> #[trigger] x1(r1, k) == x2(r2, k),
    ensures
        mat_sum(x1, a, r1, c, n) == mat_sum(x2, a, r2, c, n),
    decreases n,
{
    if n > 0 {
        lemma_sum_same_terms(x1, x2, a, r1, r2, c, (n - 1) as nat);
        assert(x1(r1, n - 1) == x2(r2, n - 1));
    }
}

/// Sums whose right factors agree on the column are equal.
pub proof fn lemma_sum_same_right(
    x: spec_fn(int, int) -> Ternary,
    y1: spec_fn(int, int) -> Ternary,
    y2: spec_fn(int, int) -> Ternary,
    r: int,
    c: int,
    n: nat,
)
    requires
        forall|k: int| 0 <= k < n ==> #[trigger] y1(k, c) == y2(k, c),
    ensures
        mat_sum(x, y1, r, c, n) == mat_sum(x, y2, r, c, n),
    decreases n,
{
    if n > 0 {
        lemma_sum_same_right(x, y1, y2, r, c, (n - 1) as nat);
        assert(y1(n - 1, c) == y2(n - 1, c));
    }
}

/// Only the diagonal term survives in a product with the identity:
/// Σ_k I(r, k) · a(k, c) = a(r, c).
pub proof fn lemma_sum_identity(a: spec_fn(int, int) -> Ternary, r: int, c: int, n: nat)
    requires
        0 <= r,
    ensures
        mat_sum(ident(), a, r, c, n) == if r < n { a(r, c) } else { Ternary::Zero },
    decreases n,
{
    if n > 0 {
        lemma_sum_identity(a, r, c, (n - 1) as nat);
        let t = ternary::tmul(ident()(r, n - 1), a(n - 1, c));
        if r == n - 1 {
            ternary::lemma_mul_identity(a(r, c));
            ternary::lemma_add_identity(a(r, c));
        } else {
            assert(t == Ternary::Zero);
            ternary::lemma_add_identity(mat_sum(ident(), a, r, c, (n - 1) as nat));
        }
    }
}

/// Σ_k x(r, k) · a(k, c) times s is the sum with row r of x scaled by s.
pub proof fn lemma_sum_scale_row(
    x: spec_fn(int, int) -> Ternary,
    a: spec_fn(int, int) -> Ternary,
    r: int,
    c: int,
    n: nat,
    s: Ternary,
)
    ensures
        mat_sum(scale_row(x, r, s), a, r, c, n) == ternary::tmul(mat_sum(x, a, r, c, n), s),
    decreases n,
{
    if n > 0 {
        lemma_sum_scale_row(x, a, r, c, (n - 1) as nat, s);
        ternary::lemma_scale_step(mat_sum(x, a, r, c, (n - 1) as nat), x(r, n - 1), a(n - 1, c), s);
    }
}


/// Subtracting fac times row p of x from row r subtracts fac times the p
/// sum from the r sum.
pub proof fn lemma_sum_sub_row(
    x: spec_fn(int, int) -> Ternary,
    a: spec_fn(int, int) -> Ternary,
    r: int,
    p: int,
    fac: Ternary,
    c: int,
    n: nat,
)
    ensures
        mat_sum(sub_row(x, r, fac, p), a, r, c, n) == ternary::tsub(
            mat_sum(x, a, r, c, n),
            ternary::tmul(fac, mat_sum(x, a, p, c, n)),
        ),
    decreases n,
{
    if n == 0 {
        ternary::lemma_zero_facts(fac);
    } else {
        lemma_sum_sub_row(x, a, r, p, fac, c, (n - 1) as nat);
        let u = x(r, n - 1);
        let w = x(p, n - 1);
        let v = a(n - 1, c);
        assert(sub_row(x, r, fac, p)(r, n - 1) == ternary::tsub(u, ternary::tmul(fac, w)));
        ternary::lemma_sub_step_mul(u, fac, w, v);
        ternary::lemma_sub_step_add(
            mat_sum(x, a, r, c, (n - 1) as nat),
            fac,
            mat_sum(x, a, p, c, (n - 1) as nat),
            ternary::tmul(u, v),
            ternary::tmul(w, v),
        );
    }
}




/// The entries of a matrix as a function of (row, column).
pub open spec fn entries(m: TernaryMatrix) -> spec_fn(int, int) -> Ternary {
    |r: int, c: int| m.entry(r, c)
}

/// The index `i` of a minor in the matrix it was cut from, when row (or
/// column) `k` was deleted.
pub open spec fn skip(i: int, k: int) -> int {
    if i < k {
        i
    } else {
        i + 1
    }
}

/// The entries of `e` with row `r0` and column `c0` deleted.
pub open spec fn minor_of(e: spec_fn(int, int) -> Ternary, r0: int, c0: int) -> spec_fn(
    int,
    int,
) -> Ternary {
    |r: int, c: int| e(skip(r, r0), skip(c, c0))
}

/// (-1)^k in Z/3Z.
pub open spec fn sign(k: int) -> Ternary {
    if k % 2 == 0 {
        Ternary::Pos
    } else {
        Ternary::Neg
    }
}

/// The determinant of the `n × n` matrix `e`, by cofactor expansion along
/// the first row; the empty determinant is 1.
pub open spec fn det(n: nat, e: spec_fn(int, int) -> Ternary) -> Ternary
    decreases n, n + 1,
{
    if n == 0 {
        Ternary::Pos
    } else {
        cofactor_sum(n, e, n)
    }
}

/// The first `k` terms of the expansion of `det(n, e)` along the first row:
/// Σ_{c < k} (-1)^c · e(0, c) · det(minor(0, c)).
pub open spec fn cofactor_sum(n: nat, e: spec_fn(int, int) -> Ternary, k: nat) -> Ternary
    decreases n, k,
{
    if n == 0 || k == 0 {
        Ternary::Zero
    } else {
        ternary::tadd(
            cofactor_sum(n, e, (k - 1) as nat),
            ternary::tmul(
                ternary::tmul(sign(k - 1), e(0, k - 1)),
                det((n - 1) as nat, minor_of(e, 0, k - 1)),
            ),
        )
    }
}

/// The (r, c) cofactor of the `n × n` matrix `e`: (-1)^(r+c) · det(minor(r, c)).
pub open spec fn cofactor(n: nat, e: spec_fn(int, int) -> Ternary, r: int, c: int) -> Ternary {
    ternary::tmul(sign(r + c), det((n - 1) as nat, minor_of(e, r, c)))
}

/// `e1` and `e2` agree on the `n × n` square.
pub open spec fn agree(e1: spec_fn(int, int) -> Ternary, e2: spec_fn(int, int) -> Ternary, n: nat) -> bool {
    forall|r: int, c: int| 0 <= r < n && 0 <= c < n ==> #[trigger] e1(r, c) == e2(r, c)
}

/// The determinant depends only on the entries inside the square.
pub proof fn lemma_det_congruent(n: nat, e1: spec_fn(int, int) -> Ternary, e2: spec_fn(int, int) -> Ternary)
    requires
        agree(e1, e2, n),
    ensures
        det(n, e1) == det(n, e2),
    decreases n, n + 1,
{
    if n > 0 {
        lemma_cofactor_sum_congruent(n, e1, e2, n);
    }
}

/// Partial cofactor sums depend only on the entries inside the square.
pub proof fn lemma_cofactor_sum_congruent(
    n: nat,
    e1: spec_fn(int, int) -> Ternary,
    e2: spec_fn(int, int) -> Ternary,
    k: nat,
)
    requires
        agree(e1, e2, n),
        k <= n,
    ensures
        cofactor_sum(n, e1, k) == cofactor_sum(n, e2, k),
    decreases n, k,
{
    if n > 0 && k > 0 {
        lemma_cofactor_sum_congruent(n, e1, e2, (k - 1) as nat);
        let m1 = minor_of(e1, 0, k - 1);
        let m2 = minor_of(e2, 0, k - 1);
        assert forall|r: int, c: int| 0 <= r < n - 1 && 0 <= c < n - 1 implies #[trigger] m1(r, c)
            == m2(r, c) by {
            assert(e1(skip(r, 0), skip(c, k - 1)) == e2(skip(r, 0), skip(c, k - 1)));
        }
        lemma_det_congruent((n - 1) as nat, m1, m2);
    }
}

/// A 1 × 1 determinant is its entry.
pub proof fn lemma_det_one(e: spec_fn(int, int) -> Ternary)
    ensures
        det(1, e) == e(0, 0),
{
    assert(cofactor_sum(1, e, 0) == Ternary::Zero);
    assert(det(0, minor_of(e, 0, 0)) == Ternary::Pos);
    assert(cofactor_sum(1, e, 1) == ternary::tadd(
        Ternary::Zero,
        ternary::tmul(ternary::tmul(Ternary::Pos, e(0, 0)), Ternary::Pos),
    ));
    ternary::lemma_mul_identity(e(0, 0));
    ternary::lemma_add_identity(e(0, 0));
}


/// A 2 × 2 determinant is a·d - b·c.
pub proof fn lemma_det_two(e: spec_fn(int, int) -> Ternary)
    ensures
        det(2, e) == ternary::tsub(ternary::tmul(e(0, 0), e(1, 1)), ternary::tmul(e(0, 1), e(1, 0))),
{
    let m0 = minor_of(e, 0, 0);
    let m1 = minor_of(e, 0, 1);
    lemma_det_one(m0);
    lemma_det_one(m1);
    assert(m0(0, 0) == e(1, 1));
    assert(m1(0, 0) == e(1, 0));
    assert(cofactor_sum(2, e, 0) == Ternary::Zero);
    assert(cofactor_sum(2, e, 1) == ternary::tadd(
        Ternary::Zero,
        ternary::tmul(ternary::tmul(Ternary::Pos, e(0, 0)), det(1, m0)),
    ));
    assert(cofactor_sum(2, e, 2) == ternary::tadd(
        cofactor_sum(2, e, 1),
        ternary::tmul(ternary::tmul(Ternary::Neg, e(0, 1)), det(1, m1)),
    ));
    ternary::lemma_det_two_terms(e(0, 0), e(0, 1), e(1, 0), e(1, 1));
}


/// `e1` and `e2` agree on the `rows × cols` rectangle.
pub open spec fn agree_on(e1: spec_fn(int, int) -> Ternary, e2: spec_fn(int, int) -> Ternary, rows: nat, cols: nat) -> bool {
    forall|i: int, j: int| 0 <= i < rows && 0 <= j < cols ==> #[trigger] e1(i, j) == e2(i, j)
}

/// On the `rows × cols` rectangle, `e` is the product `p · a` of the
/// `rows × rows` matrix `p` with `a`.
#[verifier::opaque]
pub open spec fn left_product(
    p: spec_fn(int, int) -> Ternary,
    a: spec_fn(int, int) -> Ternary,
    e: spec_fn(int, int) -> Ternary,
    rows: nat,
    cols: nat,
) -> bool {
    forall|i: int, j: int| 0 <= i < rows && 0 <= j < cols ==> #[trigger] e(i, j) == mat_sum(p, a, i, j, rows)
}

/// The first `rank` rows of `e` (with `rows` rows) are in reduced echelon
/// form over the columns before `col`, with pivot columns `piv`: each pivot
/// is a 1 with only zeros to its left and only zeros above and below it,
/// pivot columns increase, and the rows from `rank` on are zero before `col`.
#[verifier::opaque]
pub open spec fn echelon_upto(e: spec_fn(int, int) -> Ternary, rows: nat, rank: nat, col: nat, piv: Seq<int>) -> bool {
    &&& piv.len() == rank
    &&& forall|i: int, j: int| 0 <= i < j < rank ==> piv[i] < piv[j]
    &&& forall|i: int| 0 <= i < rank ==> 0 <= #[trigger] piv[i] < col && e(i, piv[i]) == Ternary::Pos
    &&& forall|i: int, c: int| 0 <= i < rank && 0 <= c < piv[i] ==> #[trigger] e(i, c) == Ternary::Zero
    &&& forall|i: int, k: int|
        0 <= i < rank && 0 <= k < rows && k != i ==> #[trigger] e(k, piv[i]) == Ternary::Zero
    &&& forall|k: int, c: int| rank <= k < rows && 0 <= c < col ==> #[trigger] e(k, c) == Ternary::Zero
}

/// `m` is in reduced row echelon form with `rank` nonzero rows.
pub open spec fn reduced_echelon(m: TernaryMatrix, rank: nat) -> bool {
    exists|piv: Seq<int>| echelon_upto(entries(m), m.rows as nat, rank, m.cols as nat, piv)
}

/// The entries after one pivot step on column `col`: rows `pr0` and `pr`
/// exchanged, row `pr0` scaled by `s`, then row `pr0` times each row's
/// entry in column `col` subtracted from every other row.
pub open spec fn pivot_step(e: spec_fn(int, int) -> Ternary, pr0: int, pr: int, col: int, s: Ternary) -> spec_fn(int, int) -> Ternary {
    let sc = scale_row(swap_rows(e, pr0, pr), pr0, s);
    |i: int, j: int| if i != pr0 { ternary::tsub(sc(i, j), ternary::tmul(sc(i, col), sc(pr0, j))) } else { sc(i, j) }
}

/// The same row operations as `pivot_step`, applied to the transform `p`:
/// the multipliers are taken from `e`.
pub open spec fn pivot_step_transform(
    p: spec_fn(int, int) -> Ternary,
    e: spec_fn(int, int) -> Ternary,
    pr0: int,
    pr: int,
    col: int,
    s: Ternary,
) -> spec_fn(int, int) -> Ternary {
    let sc = scale_row(swap_rows(e, pr0, pr), pr0, s);
    let ps = scale_row(swap_rows(p, pr0, pr), pr0, s);
    |i: int, k: int| if i != pr0 { ternary::tsub(ps(i, k), ternary::tmul(sc(i, col), ps(pr0, k))) } else { ps(i, k) }
}

/// Echelon structure only looks at the rectangle.
pub proof fn lemma_echelon_agree(e1: spec_fn(int, int) -> Ternary, e2: spec_fn(int, int) -> Ternary, rows: nat, cols: nat, rank: nat, col: nat, piv: Seq<int>)
    requires
        agree_on(e1, e2, rows, cols),
        echelon_upto(e1, rows, rank, col, piv),
        col <= cols,
        rank <= rows,
    ensures
        echelon_upto(e2, rows, rank, col, piv),
{
    reveal(echelon_upto);
    assert forall|i: int| 0 <= i < rank implies 0 <= #[trigger] piv[i] < col && e2(i, piv[i]) == Ternary::Pos by {
        assert(e1(i, piv[i]) == Ternary::Pos);
    }
    assert forall|i: int, c: int| 0 <= i < rank && 0 <= c < piv[i] implies #[trigger] e2(i, c) == Ternary::Zero by {
        assert(0 <= piv[i] < col);
        assert(e1(i, c) == Ternary::Zero);
    }
    assert forall|i: int, k: int| 0 <= i < rank && 0 <= k < rows && k != i implies #[trigger] e2(k, piv[i]) == Ternary::Zero by {
        assert(0 <= piv[i] < col);
        assert(e1(k, piv[i]) == Ternary::Zero);
    }
    assert forall|k: int, c: int| rank <= k < rows && 0 <= c < col implies #[trigger] e2(k, c) == Ternary::Zero by {
        assert(e1(k, c) == Ternary::Zero);
    }
}

/// A column with no nonzero entry at or below row `rank` has no pivot.
pub proof fn lemma_no_pivot(e: spec_fn(int, int) -> Ternary, rows: nat, rank: nat, col: nat, piv: Seq<int>)
    requires
        echelon_upto(e, rows, rank, col, piv),
        forall|k: int| rank <= k < rows ==> #[trigger] e(k, col as int) == Ternary::Zero,
    ensures
        echelon_upto(e, rows, rank, col + 1, piv),
{
    reveal(echelon_upto);
    assert forall|k: int, c: int| rank <= k < rows && 0 <= c < col + 1 implies #[trigger] e(k, c) == Ternary::Zero by {
        if c < col {
            assert(e(k, c) == Ternary::Zero);
        } else {
            assert(e(k, col as int) == Ternary::Zero);
        }
    }
}

/// One pivot step keeps the echelon structure and adds `col` as a pivot column.
#[verifier::rlimit(80)]
#[verifier::spinoff_prover]
pub proof fn lemma_pivot_step_echelon(
    e: spec_fn(int, int) -> Ternary,
    rows: nat,
    cols: nat,
    rank: nat,
    pr: int,
    col: nat,
    piv: Seq<int>,
    s: Ternary,
)
    requires
        echelon_upto(e, rows, rank, col, piv),
        rank <= pr < rows,
        col < cols,
        e(pr, col as int) != Ternary::Zero,
        ternary::tmul(e(pr, col as int), s) == Ternary::Pos,
    ensures
        echelon_upto(pivot_step(e, rank as int, pr, col as int, s), rows, rank + 1, col + 1, piv.push(col as int)),
{
    reveal(echelon_upto);
    let r0 = rank as int;
    let c0 = col as int;
    let sw = swap_rows(e, r0, pr);
    let sc = scale_row(sw, r0, s);
    let f = pivot_step(e, r0, pr, c0, s);
    let np = piv.push(c0);
    assert forall|c: int| 0 <= c < c0 implies #[trigger] sc(r0, c) == Ternary::Zero by {
        assert(e(pr, c) == Ternary::Zero);
    }
    assert(sc(r0, c0) == Ternary::Pos);
    assert forall|i: int| 0 <= i < rank + 1 implies 0 <= #[trigger] np[i] < col + 1 && f(i, np[i]) == Ternary::Pos by {
        if i < rank {
            assert(np[i] == piv[i]);
            assert(e(i, piv[i]) == Ternary::Pos);
            assert(sc(r0, piv[i]) == Ternary::Zero);
        }
    }
    assert forall|i: int, c: int| 0 <= i < rank + 1 && 0 <= c < np[i] implies #[trigger] f(i, c) == Ternary::Zero by {
        if i < rank {
            assert(np[i] == piv[i]);
            assert(e(i, c) == Ternary::Zero);
            assert(sc(r0, c) == Ternary::Zero);
        }
    }
    assert forall|i: int, k: int| 0 <= i < rank + 1 && 0 <= k < rows && k != i implies #[trigger] f(k, np[i]) == Ternary::Zero by {
        if i < rank {
            assert(np[i] == piv[i]);
            assert(sc(r0, piv[i]) == Ternary::Zero);
            if k != r0 {
                let kk = if k == pr { r0 } else { k };
                assert(sw(k, piv[i]) == e(kk, piv[i]));
                assert(e(kk, piv[i]) == Ternary::Zero);
                assert(f(k, piv[i]) == ternary::tsub(Ternary::Zero, ternary::tmul(sc(k, c0), Ternary::Zero)));
            }
        } else {
            assert(np[i] == c0);
            if k != r0 {
                let x = sc(k, c0);
                ternary::lemma_mul_identity(x);
                assert(f(k, c0) == ternary::tsub(x, ternary::tmul(x, Ternary::Pos)));
                assert(ternary::tsub(x, x) == Ternary::Zero);
            }
        }
    }
    assert forall|k: int, c: int| rank + 1 <= k < rows && 0 <= c < col + 1 implies #[trigger] f(k, c) == Ternary::Zero by {
        let x = sc(k, c0);
        if c < c0 {
            let kk = if k == pr { r0 } else { k };
            assert(sw(k, c) == e(kk, c));
            assert(e(kk, c) == Ternary::Zero);
            assert(sc(r0, c) == Ternary::Zero);
            assert(f(k, c) == ternary::tsub(Ternary::Zero, ternary::tmul(x, Ternary::Zero)));
        } else {
            ternary::lemma_mul_identity(x);
            assert(f(k, c0) == ternary::tsub(x, ternary::tmul(x, Ternary::Pos)));
            assert(ternary::tsub(x, x) == Ternary::Zero);
        }
    }
    assert forall|i: int, j: int| 0 <= i < j < rank + 1 implies np[i] < np[j] by {
        if j == rank {
            assert(np[i] == piv[i]);
        } else {
            assert(np[i] == piv[i] && np[j] == piv[j]);
        }
    }
}

/// One pivot step keeps the entries a product of a transform with `a`.
pub proof fn lemma_pivot_step_product(
    e: spec_fn(int, int) -> Ternary,
    p: spec_fn(int, int) -> Ternary,
    a: spec_fn(int, int) -> Ternary,
    rows: nat,
    cols: nat,
    r0: int,
    pr: int,
    c0: int,
    s: Ternary,
)
    requires
        left_product(p, a, e, rows, cols),
        0 <= r0 < rows,
        0 <= pr < rows,
        0 <= c0 < cols,
    ensures
        left_product(pivot_step_transform(p, e, r0, pr, c0, s), a, pivot_step(e, r0, pr, c0, s), rows, cols),
{
    reveal(left_product);
    let sw = swap_rows(e, r0, pr);
    let sc = scale_row(sw, r0, s);
    let f = pivot_step(e, r0, pr, c0, s);
    let psw = swap_rows(p, r0, pr);
    let ps = scale_row(psw, r0, s);
    let pf = pivot_step_transform(p, e, r0, pr, c0, s);
    assert forall|i: int, j: int| 0 <= i < rows && 0 <= j < cols implies #[trigger] sc(i, j) == mat_sum(ps, a, i, j, rows) by {
        let si = if i == r0 { pr } else if i == pr { r0 } else { i };
        lemma_sum_same_terms(psw, p, a, i, si, j, rows);
        assert(sw(i, j) == e(si, j));
        if i == r0 {
            lemma_sum_scale_row(psw, a, r0, j, rows, s);
        } else {
            lemma_sum_same_terms(ps, psw, a, i, i, j, rows);
        }
    }
    assert forall|i: int, j: int| 0 <= i < rows && 0 <= j < cols implies #[trigger] f(i, j) == mat_sum(pf, a, i, j, rows) by {
        if i == r0 {
            lemma_sum_same_terms(pf, ps, a, r0, r0, j, rows);
        } else {
            assert(sc(i, j) == mat_sum(ps, a, i, j, rows));
            assert(sc(r0, j) == mat_sum(ps, a, r0, j, rows));
            lemma_sum_sub_row(ps, a, i, r0, sc(i, c0), j, rows);
            lemma_sum_same_terms(pf, sub_row(ps, i, sc(i, c0), r0), a, i, i, j, rows);
        }
    }
}

/// Writing one entry changes only that entry of the layout.
/// `new` holds the data of `old` past its `rows × cols` layout unchanged.
pub open spec fn keeps_tail(new: TernaryMatrix, old: TernaryMatrix) -> bool {
    forall|k: int| old.rows * old.cols <= k < old.data@.len() ==> #[trigger] new.data@[k] == old.data@[k]
}

/// Keeping the tail is transitive across matrices of one layout.
pub proof fn lemma_keeps_tail_trans(a: TernaryMatrix, b: TernaryMatrix, c: TernaryMatrix)
    requires
        keeps_tail(b, a),
        keeps_tail(c, b),
        b.rows == a.rows,
        b.cols == a.cols,
        b.data@.len() == a.data@.len(),
    ensures
        keeps_tail(c, a),
{
    assert forall|k: int| a.rows * a.cols <= k < a.data@.len() implies #[trigger] c.data@[k] == a.data@[k] by {
        assert(b.data@[k] == a.data@[k]);
        assert(c.data@[k] == b.data@[k]);
    }
}

pub proof fn lemma_set_entry(old_m: TernaryMatrix, new_m: TernaryMatrix, r: int, c: int, v: Ternary)
    requires
        old_m.fits(),
        new_m.rows == old_m.rows,
        new_m.cols == old_m.cols,
        0 <= r < old_m.rows,
        0 <= c < old_m.cols,
        new_m.data@ == old_m.data@.update(r * old_m.cols + c, v),
    ensures
        new_m.fits(),
        keeps_tail(new_m, old_m),
        forall|i: int, j: int|
            0 <= i < old_m.rows && 0 <= j < old_m.cols ==> #[trigger] new_m.entry(i, j) == if i == r
                && j == c {
                v
            } else {
                old_m.entry(i, j)
            },
{
    lemma_index_bounds(r, c, old_m.rows as int, old_m.cols as int);
    assert forall|i: int, j: int| 0 <= i < old_m.rows && 0 <= j < old_m.cols implies #[trigger] new_m.entry(i, j)
        == if i == r && j == c {
        v
    } else {
        old_m.entry(i, j)
    } by {
        lemma_index_bounds(i, j, old_m.rows as int, old_m.cols as int);
        if i * old_m.cols + j == r * old_m.cols + c {
            lemma_index_injective(i, j, r, c, old_m.cols as int);
        }
    }
}

/// With every row a pivot row, the echelon structure extends to all columns.
pub proof fn lemma_echelon_full_rank(e: spec_fn(int, int) -> Ternary, rows: nat, col: nat, cols: nat, piv: Seq<int>)
    requires
        echelon_upto(e, rows, rows, col, piv),
        col <= cols,
    ensures
        echelon_upto(e, rows, rows, cols, piv),
{
    reveal(echelon_upto);
}

/// Every offset below `rows * cols` is the offset of a position.
pub proof fn lemma_index_onto(k: int, rows: int, cols: int)
    requires
        0 <= rows,
        0 <= cols,
        0 <= k < rows * cols,
    ensures
        cols > 0,
        0 <= k / cols < rows,
        0 <= k % cols < cols,
        k == (k / cols) * cols + k % cols,
{
    if cols == 0 {
        assert(rows * cols == 0) by (nonlinear_arith)
            requires
                cols == 0,
        ;
    }
    vstd::arithmetic::div_mod::lemma_fundamental_div_mod(k, cols);
    assert(cols * (k / cols) == (k / cols) * cols) by (nonlinear_arith);
    assert(k / cols < rows) by (nonlinear_arith)
        requires
            k == cols * (k / cols) + k % cols,
            0 <= k % cols,
            k < rows * cols,
            cols > 0,
    ;
    assert(0 <= k / cols) by (nonlinear_arith)
        requires
            k == cols * (k / cols) + k % cols,
            k % cols < cols,
            0 <= k,
            cols > 0,
    ;
}

/// Two well-formed matrices of the same shape with the same entries hold
/// the same data.
pub proof fn lemma_same_entries(a: TernaryMatrix, b: TernaryMatrix)
    requires
        a.wf(),
        b.wf(),
        a.rows == b.rows,
        a.cols == b.cols,
        forall|i: int, j: int| 0 <= i < a.rows && 0 <= j < a.cols ==> #[trigger] a.entry(i, j) == b.entry(i, j),
    ensures
        a.data@ == b.data@,
{
    assert forall|k: int| 0 <= k < a.data@.len() implies a.data@[k] == b.data@[k] by {
        lemma_index_onto(k, a.rows as int, a.cols as int);
        let (i, j) = (k / a.cols as int, k % a.cols as int);
        assert(a.entry(i, j) == b.entry(i, j));
    }
    assert(a.data@ =~= b.data@);
}

/// Transposing twice gives back a well-formed matrix.
pub proof fn lemma_transpose_involution(a: TernaryMatrix, t: TernaryMatrix, tt: TernaryMatrix)
    requires
        a.wf(),
        t.rows == a.cols,
        t.cols == a.rows,
        forall|i: int, j: int| 0 <= i < a.cols && 0 <= j < a.rows ==> #[trigger] t.entry(i, j) == a.entry(j, i),
        tt.rows == t.cols,
        tt.cols == t.rows,
        tt.wf(),
        forall|i: int, j: int| 0 <= i < t.cols && 0 <= j < t.rows ==> #[trigger] tt.entry(i, j) == t.entry(j, i),
    ensures
        tt.rows == a.rows,
        tt.cols == a.cols,
        tt.data@ == a.data@,
{
    assert forall|i: int, j: int| 0 <= i < a.rows && 0 <= j < a.cols implies #[trigger] tt.entry(i, j) == a.entry(i, j) by {
        assert(tt.entry(i, j) == t.entry(j, i));
    }
    lemma_same_entries(tt, a);
}

/// Σ_k a(r, k) · I(k, c) = a(r, c).
pub proof fn lemma_sum_identity_right(a: spec_fn(int, int) -> Ternary, r: int, c: int, n: nat)
    requires
        0 <= c,
    ensures
        mat_sum(a, ident(), r, c, n) == if c < n { a(r, c) } else { Ternary::Zero },
    decreases n,
{
    if n > 0 {
        lemma_sum_identity_right(a, r, c, (n - 1) as nat);
        if c == n - 1 {
            ternary::lemma_mul_identity(a(r, c));
            ternary::lemma_add_identity(a(r, c));
        } else {
            assert(ternary::tmul(a(r, n - 1), ident()(n - 1, c)) == Ternary::Zero);
            ternary::lemma_add_identity(mat_sum(a, ident(), r, c, (n - 1) as nat));
        }
    }
}

/// The identity matrix is a two-sided unit of multiplication: I · A = A and
/// A · I = A for a well-formed A.
pub proof fn lemma_identity_unit(id_l: TernaryMatrix, id_r: TernaryMatrix, a: TernaryMatrix, left: TernaryMatrix, right: TernaryMatrix)
    requires
        a.wf(),
        id_l.rows == a.rows && id_l.cols == a.rows,
        forall|i: int, j: int| 0 <= i < a.rows && 0 <= j < a.rows ==> #[trigger] id_l.entry(i, j) == ident()(i, j),
        id_r.rows == a.cols && id_r.cols == a.cols,
        forall|i: int, j: int| 0 <= i < a.cols && 0 <= j < a.cols ==> #[trigger] id_r.entry(i, j) == ident()(i, j),
        left.rows == a.rows && left.cols == a.cols && left.wf(),
        forall|i: int, j: int| 0 <= i < a.rows && 0 <= j < a.cols ==> #[trigger] left.entry(i, j) == mat_sum(entries(id_l), entries(a), i, j, a.rows as nat),
        right.rows == a.rows && right.cols == a.cols && right.wf(),
        forall|i: int, j: int| 0 <= i < a.rows && 0 <= j < a.cols ==> #[trigger] right.entry(i, j) == mat_sum(entries(a), entries(id_r), i, j, a.cols as nat),
    ensures
        left.data@ == a.data@,
        right.data@ == a.data@,
{
    assert forall|i: int, j: int| 0 <= i < a.rows && 0 <= j < a.cols implies #[trigger] left.entry(i, j) == a.entry(i, j) by {
        assert forall|k: int| 0 <= k < a.rows implies #[trigger] entries(id_l)(i, k) == ident()(i, k) by {
            assert(id_l.entry(i, k) == ident()(i, k));
        }
        lemma_sum_same_terms(entries(id_l), ident(), entries(a), i, i, j, a.rows as nat);
        lemma_sum_identity(entries(a), i, j, a.rows as nat);
    }
    lemma_same_entries(left, a);
    assert forall|i: int, j: int| 0 <= i < a.rows && 0 <= j < a.cols implies #[trigger] right.entry(i, j) == a.entry(i, j) by {
        assert forall|k: int| 0 <= k < a.cols implies #[trigger] entries(id_r)(k, j) == ident()(k, j) by {
            assert(id_r.entry(k, j) == ident()(k, j));
        }
        lemma_sum_same_right(entries(a), entries(id_r), ident(), i, j, a.cols as nat);
        lemma_sum_identity_right(entries(a), i, j, a.cols as nat);
    }
    lemma_same_entries(right, a);
}


/// The invariants of row reduction after one pivot step, from what the
/// three row operations of the step ensure.
proof fn lemma_after_pivot(
    m1: TernaryMatrix,
    m2: TernaryMatrix,
    m: TernaryMatrix,
    b: spec_fn(int, int) -> Ternary,
    a: spec_fn(int, int) -> Ternary,
    p: spec_fn(int, int) -> Ternary,
    q: spec_fn(int, int) -> Ternary,
    nr: nat,
    nc: nat,
    r0: nat,
    pr: int,
    col: nat,
    piv: Seq<int>,
    scale: Ternary,
)
    requires
        r0 <= pr < nr,
        col < nc,
        echelon_upto(b, nr, r0, col, piv),
        left_product(p, a, b, nr, nc),
        left_product(q, b, a, nr, nc),
        b(pr, col as int) != Ternary::Zero,
        ternary::tmul(b(pr, col as int), scale) == Ternary::Pos,
        m1.rows == nr && m1.cols == nc,
        m2.rows == nr && m2.cols == nc,
        m.rows == nr && m.cols == nc,
        forall|i: int, j: int| 0 <= i < nr && 0 <= j < nc ==> #[trigger] m1.entry(i, j) == swap_rows(b, r0 as int, pr)(i, j),
        forall|i: int, j: int| 0 <= i < nr && 0 <= j < nc ==> #[trigger] m2.entry(i, j) == scale_row(entries(m1), r0 as int, scale)(i, j),
        forall|i: int, j: int|
            0 <= i < nr && 0 <= j < nc ==> #[trigger] m.entry(i, j) == if i != r0 {
                ternary::tsub(m2.entry(i, j), ternary::tmul(m2.entry(i, col as int), m2.entry(r0 as int, j)))
            } else {
                m2.entry(i, j)
            },
    ensures
        echelon_upto(entries(m), nr, r0 + 1, col + 1, piv.push(col as int)),
        left_product(pivot_step_transform(p, b, r0 as int, pr, col as int, scale), a, entries(m), nr, nc),
        left_product(crate::row_space::pivot_step_undo(q, b, r0 as int, pr, col as int, scale, nr), entries(m), a, nr, nc),
{
    lemma_step_entries(m1, m2, m, b, nr, nc, r0, pr, col, scale);
    let f = pivot_step(b, r0 as int, pr, col as int, scale);
    lemma_pivot_step_echelon(b, nr, nc, r0, pr, col, piv, scale);
    lemma_echelon_agree(f, entries(m), nr, nc, r0 + 1, col + 1, piv.push(col as int));
    lemma_after_pivot_products(m, b, a, p, q, nr, nc, r0, pr, col, scale);
}

#[verifier::spinoff_prover]
proof fn lemma_step_entries(
    m1: TernaryMatrix,
    m2: TernaryMatrix,
    m: TernaryMatrix,
    b: spec_fn(int, int) -> Ternary,
    nr: nat,
    nc: nat,
    r0: nat,
    pr: int,
    col: nat,
    scale: Ternary,
)
    requires
        r0 < nr,
        col < nc,
        forall|i: int, j: int| 0 <= i < nr && 0 <= j < nc ==> #[trigger] m1.entry(i, j) == swap_rows(b, r0 as int, pr)(i, j),
        forall|i: int, j: int| 0 <= i < nr && 0 <= j < nc ==> #[trigger] m2.entry(i, j) == scale_row(entries(m1), r0 as int, scale)(i, j),
        forall|i: int, j: int|
            0 <= i < nr && 0 <= j < nc ==> #[trigger] m.entry(i, j) == if i != r0 {
                ternary::tsub(m2.entry(i, j), ternary::tmul(m2.entry(i, col as int), m2.entry(r0 as int, j)))
            } else {
                m2.entry(i, j)
            },
    ensures
        agree_on(entries(m), pivot_step(b, r0 as int, pr, col as int, scale), nr, nc),
{
    let f = pivot_step(b, r0 as int, pr, col as int, scale);
    let sw = swap_rows(b, r0 as int, pr);
    let sc = scale_row(sw, r0 as int, scale);
    assert forall|i: int, j: int| 0 <= i < nr && 0 <= j < nc implies #[trigger] m2.entry(i, j) == sc(i, j) by {
        assert(m1.entry(i, j) == sw(i, j));
    }
    assert forall|i: int, j: int| 0 <= i < nr && 0 <= j < nc implies #[trigger] entries(m)(i, j) == f(i, j) by {
        assert(m2.entry(i, col as int) == sc(i, col as int));
        assert(m2.entry(r0 as int, j) == sc(r0 as int, j));
        assert(m2.entry(i, j) == sc(i, j));
    }
}

#[verifier::spinoff_prover]
proof fn lemma_after_pivot_products(
    m: TernaryMatrix,
    b: spec_fn(int, int) -> Ternary,
    a: spec_fn(int, int) -> Ternary,
    p: spec_fn(int, int) -> Ternary,
    q: spec_fn(int, int) -> Ternary,
    nr: nat,
    nc: nat,
    r0: nat,
    pr: int,
    col: nat,
    scale: Ternary,
)
    requires
        r0 <= pr < nr,
        col < nc,
        left_product(p, a, b, nr, nc),
        left_product(q, b, a, nr, nc),
        ternary::tmul(b(pr, col as int), scale) == Ternary::Pos,
        agree_on(entries(m), pivot_step(b, r0 as int, pr, col as int, scale), nr, nc),
    ensures
        left_product(pivot_step_transform(p, b, r0 as int, pr, col as int, scale), a, entries(m), nr, nc),
        left_product(crate::row_space::pivot_step_undo(q, b, r0 as int, pr, col as int, scale, nr), entries(m), a, nr, nc),
{
    lemma_after_pivot_forward(m, b, a, p, nr, nc, r0, pr, col, scale);
    assert(scale != Ternary::Zero);
    lemma_after_pivot_backward(m, b, a, q, nr, nc, r0, pr, col, scale);
}

#[verifier::spinoff_prover]
proof fn lemma_after_pivot_forward(
    m: TernaryMatrix,
    b: spec_fn(int, int) -> Ternary,
    a: spec_fn(int, int) -> Ternary,
    p: spec_fn(int, int) -> Ternary,
    nr: nat,
    nc: nat,
    r0: nat,
    pr: int,
    col: nat,
    scale: Ternary,
)
    requires
        r0 <= pr < nr,
        col < nc,
        left_product(p, a, b, nr, nc),
        agree_on(entries(m), pivot_step(b, r0 as int, pr, col as int, scale), nr, nc),
    ensures
        left_product(pivot_step_transform(p, b, r0 as int, pr, col as int, scale), a, entries(m), nr, nc),
{
    reveal(left_product);
    let f = pivot_step(b, r0 as int, pr, col as int, scale);
    lemma_pivot_step_product(b, p, a, nr, nc, r0 as int, pr, col as int, scale);
    let np = pivot_step_transform(p, b, r0 as int, pr, col as int, scale);
    assert forall|i: int, j: int| 0 <= i < nr && 0 <= j < nc implies #[trigger] entries(m)(i, j) == mat_sum(np, a, i, j, nr) by {
        assert(f(i, j) == mat_sum(np, a, i, j, nr));
    }
}

#[verifier::spinoff_prover]
proof fn lemma_after_pivot_backward(
    m: TernaryMatrix,
    b: spec_fn(int, int) -> Ternary,
    a: spec_fn(int, int) -> Ternary,
    q: spec_fn(int, int) -> Ternary,
    nr: nat,
    nc: nat,
    r0: nat,
    pr: int,
    col: nat,
    scale: Ternary,
)
    requires
        r0 <= pr < nr,
        col < nc,
        left_product(q, b, a, nr, nc),
        scale != Ternary::Zero,
        agree_on(entries(m), pivot_step(b, r0 as int, pr, col as int, scale), nr, nc),
    ensures
        left_product(crate::row_space::pivot_step_undo(q, b, r0 as int, pr, col as int, scale, nr), entries(m), a, nr, nc),
{
    reveal(left_product);
    let f = pivot_step(b, r0 as int, pr, col as int, scale);
    crate::row_space::lemma_pivot_step_undo(q, b, a, nr, nc, r0 as int, pr, col as int, scale);
    let nq = crate::row_space::pivot_step_undo(q, b, r0 as int, pr, col as int, scale, nr);
    assert forall|i: int, j: int| 0 <= i < nr && 0 <= j < nc implies #[trigger] a(i, j) == mat_sum(nq, entries(m), i, j, nr) by {
        assert(a(i, j) == mat_sum(nq, f, i, j, nr));
        assert forall|k: int| 0 <= k < nr implies #[trigger] f(k, j) == entries(m)(k, j) by {
        }
        lemma_sum_same_right(nq, f, entries(m), i, j, nr);
    }
}

/// A trit right-aligned in three characters: " -1", "  0" or " +1".
pub open spec fn cell_text(t: Ternary) -> Seq<char> {
    match t {
        Ternary::Neg => seq![' ', '-', '1'],
        Ternary::Zero => seq![' ', ' ', '0'],
        Ternary::Pos => seq![' ', '+', '1'],
    }
}

/// Each printed cell is the entry's own text (as `Ternary::to_string`
/// writes it) right-aligned in three characters: spaces, then the symbol.
pub proof fn lemma_cell_text_is_symbol(t: Ternary)
    ensures
        cell_text(t).len() == 3,
        tsymbol_len(t) <= 3,
        cell_text(t).subrange(3 - tsymbol_len(t), 3) == ternary::tsymbol(t),
        forall|i: int| 0 <= i < 3 - tsymbol_len(t) ==> #[trigger] cell_text(t)[i] == ' ',
{
    assert(cell_text(t).subrange(3 - tsymbol_len(t), 3) =~= ternary::tsymbol(t));
}

/// The number of characters in the text of `t`.
pub open spec fn tsymbol_len(t: Ternary) -> int {
    ternary::tsymbol(t).len() as int
}

/// The printed row: the cell of column `c` occupies characters 4c .. 4c + 3,
/// and a single space separates consecutive cells.
pub proof fn lemma_row_cells_layout(m: TernaryMatrix, r: int, k: nat)
    ensures
        row_cells(m, r, k).len() == if k == 0 { 0 } else { 4 * k - 1 },
        forall|c: int| 0 <= c < k ==> #[trigger] row_cells(m, r, k).subrange(4 * c, 4 * c + 3) == cell_text(m.entry(r, c)),
        forall|c: int| 0 <= c < k - 1 ==> #[trigger] row_cells(m, r, k)[4 * c + 3] == ' ',
    decreases k,
{
    if k > 0 {
        lemma_row_cells_layout(m, r, (k - 1) as nat);
        let prev = row_cells(m, r, (k - 1) as nat);
        let cur = row_cells(m, r, k);
        let sep: Seq<char> = if k > 1 { seq![' '] } else { Seq::empty() };
        assert(cur == prev + sep + cell_text(m.entry(r, k - 1)));
        assert forall|c: int| 0 <= c < k implies #[trigger] cur.subrange(4 * c, 4 * c + 3) == cell_text(m.entry(r, c)) by {
            if c < k - 1 {
                assert(cur.subrange(4 * c, 4 * c + 3) =~= prev.subrange(4 * c, 4 * c + 3));
            } else {
                assert(cur.subrange(4 * c, 4 * c + 3) =~= cell_text(m.entry(r, k - 1)));
            }
        }
        assert forall|c: int| 0 <= c < k - 1 implies #[trigger] cur[4 * c + 3] == ' ' by {
            if c < k - 2 {
                assert(cur[4 * c + 3] == prev[4 * c + 3]);
            }
        }
    }
}

/// The first `k` cells of row `r`, separated by single spaces.
pub open spec fn row_cells(m: TernaryMatrix, r: int, k: nat) -> Seq<char>
    decreases k,
{
    if k == 0 {
        Seq::empty()
    } else {
        row_cells(m, r, (k - 1) as nat) + (if k > 1 { seq![' '] } else { Seq::empty() }) + cell_text(
            m.entry(r, k - 1),
        )
    }
}

/// The first `k` rows of `m`, each written as "[cells]" and a newline.
pub open spec fn matrix_text(m: TernaryMatrix, k: nat) -> Seq<char>
    decreases k,
{
    if k == 0 {
        Seq::empty()
    } else {
        matrix_text(m, (k - 1) as nat) + seq!['['] + row_cells(m, k - 1, m.cols as nat) + seq![']', '\n']
    }
}

/// The number of characters in one printed line of `m`: "[", the cells
/// with their separators, "]" and the newline.
pub open spec fn line_len(m: TernaryMatrix) -> int {
    if m.cols == 0 {
        3
    } else {
        4 * m.cols + 2
    }
}

/// The printed matrix: line `i`, of `line_len(m)` characters, is "[", the
/// printed row `i`, "]" and a newline.
pub proof fn lemma_matrix_text_layout(m: TernaryMatrix, k: nat)
    ensures
        matrix_text(m, k).len() == k * line_len(m),
        forall|i: int| 0 <= i < k ==> #[trigger] matrix_text(m, k).subrange(i * line_len(m), (i + 1) * line_len(m))
            == seq!['['] + row_cells(m, i, m.cols as nat) + seq![']', '\n'],
    decreases k,
{
    let l = line_len(m);
    if k > 0 {
        lemma_matrix_text_layout(m, (k - 1) as nat);
        let prev = matrix_text(m, (k - 1) as nat);
        let cur = matrix_text(m, k);
        lemma_row_cells_layout(m, k - 1, m.cols as nat);
        assert(prev.len() == (k - 1) * l);
        assert((k - 1) * l + l == k * l) by (nonlinear_arith);
        assert forall|i: int| 0 <= i < k implies #[trigger] cur.subrange(i * l, (i + 1) * l) == seq!['[']
            + row_cells(m, i, m.cols as nat) + seq![']', '\n'] by {
            lemma_row_cells_layout(m, i, m.cols as nat);
            assert((i + 1) * l == i * l + l) by (nonlinear_arith);
            if i < k - 1 {
                assert(i * l + l <= (k - 1) * l) by (nonlinear_arith)
                    requires
                        i < k - 1,
                        l >= 0,
                ;
                assert(0 <= i * l) by (nonlinear_arith)
                    requires
                        0 <= i,
                        l >= 0,
                ;
                assert(cur.subrange(i * l, (i + 1) * l) =~= prev.subrange(i * l, (i + 1) * l));
            } else {
                assert(cur.subrange(i * l, (i + 1) * l) =~= seq!['['] + row_cells(m, i, m.cols as nat) + seq![
                    ']',
                    '\n',
                ]);
            }
        }
    }
}

/// In the printed matrix, the entry at row `i`, column `c` ends at character
/// i·L + 4c + 4 (L = `line_len(m)`), and its last characters are the text
/// that `Ternary::to_string` gives for it, preceded by spaces.
#[verifier::spinoff_prover]
#[verifier::rlimit(50)]
pub proof fn lemma_printed_entry(m: TernaryMatrix, i: int, c: int)
    requires
        0 <= i < m.rows,
        0 <= c < m.cols,
    ensures
        ({
            let text = matrix_text(m, m.rows as nat);
            let end = i * line_len(m) + 4 * c + 4;
            &&& text.subrange(end - tsymbol_len(m.entry(i, c)), end) == ternary::tsymbol(m.entry(i, c))
            &&& forall|j: int| end - 3 <= j < end - tsymbol_len(m.entry(i, c)) ==> #[trigger] text[j] == ' '
        }),
{
    let l = line_len(m);
    let text = matrix_text(m, m.rows as nat);
    let t = m.entry(i, c);
    lemma_matrix_text_layout(m, m.rows as nat);
    lemma_row_cells_layout(m, i, m.cols as nat);
    lemma_cell_text_is_symbol(t);
    assert((i + 1) * l == i * l + l) by (nonlinear_arith);
    assert(i * l + l <= m.rows * l && 0 <= i * l) by (nonlinear_arith)
        requires
            0 <= i < m.rows,
            l >= 0,
    ;
    assert(text.len() == m.rows * l);
    assert(l == 4 * m.cols + 2);
    let line = text.subrange(i * l, (i + 1) * l);
    assert(line == seq!['['] + row_cells(m, i, m.cols as nat) + seq![']', '\n']);
    let rc = row_cells(m, i, m.cols as nat);
    assert(rc.subrange(4 * c, 4 * c + 3) == cell_text(t));
    assert forall|j: int| 0 <= j < 3 implies #[trigger] text[i * l + 4 * c + 1 + j] == cell_text(t)[j] by {
        assert(text[i * l + 4 * c + 1 + j] == line[4 * c + 1 + j]);
        assert(line[4 * c + 1 + j] == rc[4 * c + j]);
        assert(rc[4 * c + j] == rc.subrange(4 * c, 4 * c + 3)[j]);
    }
    let end = i * l + 4 * c + 4;
    let k = tsymbol_len(t);
    assert forall|j: int| end - 3 <= j < end - k implies #[trigger] text[j] == ' ' by {
        assert(text[i * l + 4 * c + 1 + (j - end + 3)] == cell_text(t)[j - end + 3]);
    }
    assert(text.subrange(end - k, end) =~= ternary::tsymbol(t)) by {
        assert forall|j: int| 0 <= j < k implies #[trigger] text.subrange(end - k, end)[j] == ternary::tsymbol(t)[j] by {
            assert(text[i * l + 4 * c + 1 + (3 - k + j)] == cell_text(t)[3 - k + j]);
            assert(cell_text(t)[3 - k + j] == cell_text(t).subrange(3 - k, 3)[j]);
        }
    }
}

/// A matrix with ternary entries, stored row by row.
#[derive(Debug, Clone, PartialEq, Eq)]
pub struct TernaryMatrix {
    pub rows: usize,
    pub cols: usize,
    pub data: Vec<Ternary>,
}

impl TernaryMatrix {
    /// The entry at row `r`, column `c`.
    pub open spec fn entry(self, r: int, c: int) -> Ternary {
        self.data@[r * self.cols + c]
    }

    /// The data holds every entry of the `rows × cols` layout.
    pub open spec fn fits(self) -> bool {
        self.rows * self.cols <= self.data@.len()
    }

    /// The data holds exactly the entries of the `rows × cols` layout.
    pub open spec fn wf(self) -> bool {
        self.rows * self.cols == self.data@.len()
    }

    /// Create a zero matrix of given dimensions.
    pub fn zeros(rows: usize, cols: usize) -> (r: Self)
        requires
            rows * cols <= usize::MAX,
        ensures
            r.rows == rows,
            r.cols == cols,
            r.data@ == Seq::new((rows * cols) as nat, |i: int| Ternary::Zero),
    {
        let data = vec![Ternary::Zero; rows * cols];
        assert(data@ =~= Seq::new((rows * cols) as nat, |i: int| Ternary::Zero));
        TernaryMatrix { rows, cols, data }
    }

    /// Create an identity matrix of given size.
    pub fn identity(n: usize) -> (r: Self)
        requires
            n * n <= usize::MAX,
        ensures
            r.rows == n,
            r.cols == n,
            r.wf(),
            forall|i: int, j: int|
                0 <= i < n && 0 <= j < n ==> #[trigger] r.entry(i, j) == if i == j {
                    Ternary::Pos
                } else {
                    Ternary::Zero
                },
    {
        let mut m = Self::zeros(n, n);
        let mut i: usize = 0;
        assert forall|a: int, b: int| 0 <= a < n && 0 <= b < n implies #[trigger] m.entry(a, b)
            == Ternary::Zero by {
            lemma_index_bounds(a, b, n as int, n as int);
        }
        while i < n
            invariant
                n * n <= usize::MAX,
                m.rows == n,
                m.cols == n,
                m.wf(),
                i <= n,
                forall|a: int, b: int|
                    0 <= a < n && 0 <= b < n ==> #[trigger] m.entry(a, b) == if a == b && a < i {
                        Ternary::Pos
                    } else {
                        Ternary::Zero
                    },
            decreases n - i,
        {
            proof {
                lemma_index_bounds(i as int, i as int, n as int, n as int);
            }
            let ghost old_m = m;
            m.data.set(i * n + i, Ternary::Pos);
            assert forall|a: int, b: int| 0 <= a < n && 0 <= b < n implies #[trigger] m.entry(a, b)
                == if a == b && a < i + 1 {
                Ternary::Pos
            } else {
                Ternary::Zero
            } by {
                lemma_index_bounds(a, b, n as int, n as int);
                if a * n + b == i * n + i {
                    lemma_index_injective(a, b, i as int, i as int, n as int);
                }
                assert(old_m.entry(a, b) == if a == b && a < i {
                    Ternary::Pos
                } else {
                    Ternary::Zero
                });
            }
            i += 1;
        }
        m
    }

    /// Create from a Vec of Ternary values in row-major order; None when
    /// the length is not `rows * cols`.
    pub fn from_vec(rows: usize, cols: usize, data: Vec<Ternary>) -> (r: Option<Self>)
        requires
            rows * cols <= usize::MAX,
        ensures
            r is None <==> data@.len() != rows * cols,
            r matches Some(m) ==> m.rows == rows && m.cols == cols && m.data@ == data@,
    {
        if data.len() != rows * cols {
            return None;
        }
        Some(TernaryMatrix { rows, cols, data })
    }

    /// Create from i32 values (converted mod 3); None when the length is not
    /// `rows * cols`.
    pub fn from_i32_slice(rows: usize, cols: usize, vals: &[i32]) -> (r: Option<Self>)
        requires
            rows * cols <= usize::MAX,
        ensures
            r is None <==> vals@.len() != rows * cols,
            r matches Some(m) ==> m.rows == rows && m.cols == cols && m.data@ == Seq::new(
                vals@.len(),
                |i: int| ternary::tfrom(vals@[i] as int),
            ),
    {
        if vals.len() != rows * cols {
            return None;
        }
        let mut data: Vec<Ternary> = Vec::new();
        let mut i: usize = 0;
        while i < vals.len()
            invariant
                i <= vals@.len(),
                data@ == Seq::new(i as nat, |k: int| ternary::tfrom(vals@[k] as int)),
            decreases vals@.len() - i,
        {
            data.push(Ternary::from_i32(vals[i]));
            i += 1;
            assert(data@ =~= Seq::new(i as nat, |k: int| ternary::tfrom(vals@[k] as int)));
        }
        Some(TernaryMatrix { rows, cols, data })
    }

    /// Get element at (r, c).
    pub fn get(&self, r: usize, c: usize) -> (v: Ternary)
        requires
            r * self.cols + c < self.data@.len(),
        ensures
            v == self.entry(r as int, c as int),
    {
        let len = self.data.len();
        assert(r * self.cols <= r * self.cols + c);
        self.data[r * self.cols + c]
    }

    /// Set element at (r, c).
    pub fn set(&mut self, r: usize, c: usize, v: Ternary)
        requires
            r * old(self).cols + c < old(self).data@.len(),
        ensures
            final(self).rows == old(self).rows,
            final(self).cols == old(self).cols,
            final(self).data@ == old(self).data@.update(r * old(self).cols + c, v),
    {
        let len = self.data.len();
        assert(r * self.cols <= r * self.cols + c);
        let i = r * self.cols + c;
        self.data.set(i, v);
    }

    /// Check if the matrix is square.
    pub fn is_square(&self) -> (r: bool)
        ensures
            r == (self.rows == self.cols),
    {
        self.rows == self.cols
    }
    /// Transpose the matrix.
    pub fn transpose(&self) -> (t: Self)
        requires
            self.fits(),
        ensures
            t.rows == self.cols,
            t.cols == self.rows,
            t.wf(),
            forall|i: int, j: int|
                0 <= i < self.cols && 0 <= j < self.rows ==> #[trigger] t.entry(i, j)
                    == self.entry(j, i),
    {
        let len = self.data.len();
        let mut result = Self::zeros(self.cols, self.rows);
        let mut r: usize = 0;
        while r < self.rows
            invariant
                self.fits(),
                result.rows == self.cols,
                result.cols == self.rows,
                result.wf(),
                r <= self.rows,
                forall|i: int, j: int|
                    0 <= i < self.cols && 0 <= j < r ==> #[trigger] result.entry(i, j)
                        == self.entry(j, i),
            decreases self.rows - r,
        {
            let mut c: usize = 0;
            while c < self.cols
                invariant
                    self.fits(),
                    result.rows == self.cols,
                    result.cols == self.rows,
                    result.wf(),
                    r < self.rows,
                    c <= self.cols,
                    forall|i: int, j: int|
                        0 <= i < self.cols && (0 <= j < r || (j == r && i < c))
                            ==> #[trigger] result.entry(i, j) == self.entry(j, i),
                decreases self.cols - c,
            {
                proof {
                    lemma_index_bounds(r as int, c as int, self.rows as int, self.cols as int);
                    lemma_index_bounds(c as int, r as int, self.cols as int, self.rows as int);
                }
                let v = self.get(r, c);
                let ghost prev = result;
                result.set(c, r, v);
                assert forall|i: int, j: int|
                    0 <= i < self.cols && (0 <= j < r || (j == r && i < c + 1))
                        implies #[trigger] result.entry(i, j) == self.entry(j, i) by {
                    lemma_index_bounds(i, j, self.cols as int, self.rows as int);
                    if i * self.rows + j == c * self.rows + r {
                        lemma_index_injective(i, j, c as int, r as int, self.rows as int);
                    } else {
                        assert(result.entry(i, j) == prev.entry(i, j));
                    }
                }
                c += 1;
            }
            r += 1;
        }
        result
    }

    /// Matrix multiplication over Z/3Z; None when the inner dimensions differ.
    pub fn mul(&self, other: &TernaryMatrix) -> (res: Option<TernaryMatrix>)
        requires
            self.cols == other.rows ==> self.fits() && other.fits() && self.rows * other.cols
                <= usize::MAX,
        ensures
            res is None <==> self.cols != other.rows,
            res matches Some(m) ==> {
                &&& m.rows == self.rows
                &&& m.cols == other.cols
                &&& m.wf()
                &&& forall|i: int, j: int|
                    0 <= i < self.rows && 0 <= j < other.cols ==> #[trigger] m.entry(i, j) == mat_sum(
                        entries(*self),
                        entries(*other),
                        i,
                        j,
                        self.cols as nat,
                    )
            },
    {
        if self.cols != other.rows {
            return None;
        }
        let mut result = Self::zeros(self.rows, other.cols);
        let mut r: usize = 0;
        while r < self.rows
            invariant
                self.fits(),
                other.fits(),
                self.cols == other.rows,
                result.rows == self.rows,
                result.cols == other.cols,
                result.wf(),
                r <= self.rows,
                forall|i: int, j: int|
                    0 <= i < r && 0 <= j < other.cols ==> #[trigger] result.entry(i, j) == mat_sum(
                        entries(*self),
                        entries(*other),
                        i,
                        j,
                        self.cols as nat,
                    ),
            decreases self.rows - r,
        {
            let mut c: usize = 0;
            while c < other.cols
                invariant
                    self.fits(),
                    other.fits(),
                    self.cols == other.rows,
                    result.rows == self.rows,
                    result.cols == other.cols,
                    result.wf(),
                    r < self.rows,
                    c <= other.cols,
                    forall|i: int, j: int|
                        0 <= j < other.cols && (0 <= i < r || (i == r && j < c))
                            ==> #[trigger] result.entry(i, j) == mat_sum(
                            entries(*self),
                            entries(*other),
                            i,
                            j,
                            self.cols as nat,
                        ),
                decreases other.cols - c,
            {
                let mut sum = Ternary::Zero;
                let mut k: usize = 0;
                while k < self.cols
                    invariant
                        self.fits(),
                        other.fits(),
                        self.cols == other.rows,
                        r < self.rows,
                        c < other.cols,
                        k <= self.cols,
                        sum == mat_sum(entries(*self), entries(*other), r as int, c as int, k as nat),
                    decreases self.cols - k,
                {
                    proof {
                        lemma_index_bounds(r as int, k as int, self.rows as int, self.cols as int);
                        lemma_index_bounds(k as int, c as int, other.rows as int, other.cols as int);
                    }
                    sum = sum.add(self.get(r, k).mul(other.get(k, c)));
                    k += 1;
                }
                proof {
                    lemma_index_bounds(r as int, c as int, result.rows as int, result.cols as int);
                }
                let ghost prev = result;
                result.set(r, c, sum);
                assert forall|i: int, j: int|
                    0 <= j < other.cols && (0 <= i < r || (i == r && j < c + 1))
                        implies #[trigger] result.entry(i, j) == mat_sum(
                        entries(*self),
                        entries(*other),
                        i,
                        j,
                        self.cols as nat,
                    ) by {
                    lemma_index_bounds(i, j, result.rows as int, result.cols as int);
                    if i * result.cols + j == r * result.cols + c {
                        lemma_index_injective(i, j, r as int, c as int, result.cols as int);
                    } else {
                        assert(result.entry(i, j) == prev.entry(i, j));
                    }
                }
                c += 1;
            }
            r += 1;
        }
        Some(result)
    }

    /// Multiply every entry by a scalar.
    pub fn scale(&self, s: Ternary) -> (m: Self)
        ensures
            m.rows == self.rows,
            m.cols == self.cols,
            m.data@ == Seq::new(self.data@.len(), |i: int| ternary::tmul(self.data@[i], s)),
    {
        let mut data: Vec<Ternary> = Vec::new();
        let mut i: usize = 0;
        while i < self.data.len()
            invariant
                i <= self.data@.len(),
                data@ == Seq::new(i as nat, |k: int| ternary::tmul(self.data@[k], s)),
            decreases self.data@.len() - i,
        {
            data.push(self.data[i].mul(s));
            i += 1;
            assert(data@ =~= Seq::new(i as nat, |k: int| ternary::tmul(self.data@[k], s)));
        }
        TernaryMatrix { rows: self.rows, cols: self.cols, data }
    }

    /// Add two matrices entry by entry; None when the dimensions differ.
    pub fn add(&self, other: &TernaryMatrix) -> (res: Option<TernaryMatrix>)
        ensures
            res is None <==> (self.rows != other.rows || self.cols != other.cols),
            res matches Some(m) ==> {
                &&& m.rows == self.rows
                &&& m.cols == self.cols
                &&& m.data@ == Seq::new(
                    if self.data@.len() <= other.data@.len() {
                        self.data@.len()
                    } else {
                        other.data@.len()
                    },
                    |i: int| ternary::tadd(self.data@[i], other.data@[i]),
                )
            },
    {
        if self.rows != other.rows || self.cols != other.cols {
            return None;
        }
        let n = if self.data.len() <= other.data.len() {
            self.data.len()
        } else {
            other.data.len()
        };
        let mut data: Vec<Ternary> = Vec::new();
        let mut i: usize = 0;
        while i < n
            invariant
                n <= self.data@.len(),
                n <= other.data@.len(),
                i <= n,
                data@ == Seq::new(i as nat, |k: int| ternary::tadd(self.data@[k], other.data@[k])),
            decreases n - i,
        {
            data.push(self.data[i].add(other.data[i]));
            i += 1;
            assert(data@ =~= Seq::new(
                i as nat,
                |k: int| ternary::tadd(self.data@[k], other.data@[k]),
            ));
        }
        Some(TernaryMatrix { rows: self.rows, cols: self.cols, data })
    }
    /// Determinant of a square matrix by cofactor expansion; None when the
    /// matrix is not square.
    pub fn determinant(&self) -> (r: Option<Ternary>)
        requires
            self.rows == self.cols ==> self.fits(),
        ensures
            r is None <==> self.rows != self.cols,
            r matches Some(d) ==> d == det(self.rows as nat, entries(*self)),
    {
        if self.rows != self.cols {
            return None;
        }
        Some(self.det_recursive())
    }

    fn det_recursive(&self) -> (d: Ternary)
        requires
            self.rows == self.cols,
            self.fits(),
        ensures
            d == det(self.rows as nat, entries(*self)),
        decreases self.rows,
    {
        let n = self.rows;
        let ghost e = entries(*self);
        if n == 0 {
            Ternary::Pos
        } else if n == 1 {
            proof {
                lemma_det_one(e);
                lemma_index_bounds(0, 0, 1, 1);
            }
            self.get(0, 0)
        } else if n == 2 {
            proof {
                lemma_det_two(e);
                lemma_index_bounds(1, 1, 2, 2);
            }
            let a = self.get(0, 0);
            let b = self.get(0, 1);
            let c = self.get(1, 0);
            let d = self.get(1, 1);
            a.mul(d).sub(b.mul(c))
        } else {
            let mut acc = Ternary::Zero;
            let mut c: usize = 0;
            while c < n
                invariant
                    n == self.rows,
                    n == self.cols,
                    n >= 3,
                    self.fits(),
                    e == entries(*self),
                    c <= n,
                    acc == cofactor_sum(n as nat, e, c as nat),
                decreases n - c,
            {
                let cofactor = self.minor(0, c);
                let sub = cofactor.det_recursive();
                proof {
                    lemma_det_congruent((n - 1) as nat, entries(cofactor), minor_of(e, 0, c as int));
                    lemma_index_bounds(0, c as int, n as int, n as int);
                }
                let sign = if c % 2 == 0 {
                    Ternary::Pos
                } else {
                    Ternary::Neg
                };
                acc = acc.add(sign.mul(self.get(0, c)).mul(sub));
                c += 1;
            }
            acc
        }
    }

    /// Minor matrix: delete row r and column c of a square matrix.
    fn minor(&self, r: usize, c: usize) -> (m: TernaryMatrix)
        requires
            self.rows == self.cols,
            self.rows >= 1,
            self.fits(),
            r < self.rows,
            c < self.cols,
        ensures
            m.rows == self.rows - 1,
            m.cols == self.rows - 1,
            m.wf(),
            agree(entries(m), minor_of(entries(*self), r as int, c as int), m.rows as nat),
    {
        let n = self.rows - 1;
        let len = self.data.len();
        proof {
            assert(n * n <= self.rows * self.cols) by (nonlinear_arith)
                requires
                    n + 1 == self.rows,
                    self.rows == self.cols,
            ;
        }
        let mut data: Vec<Ternary> = Vec::with_capacity(n * n);
        let mut ri: usize = 0;
        while ri < self.rows
            invariant
                n + 1 == self.rows,
                self.rows == self.cols,
                self.fits(),
                r < self.rows,
                c < self.cols,
                ri <= self.rows,
                data@.len() == (if ri <= r { ri as int } else { ri - 1 }) * n,
                forall|i: int, j: int|
                    0 <= i < (if ri <= r { ri as int } else { ri - 1 }) && 0 <= j < n ==> #[trigger] data@[i * n + j]
                        == self.entry(skip(i, r as int), skip(j, c as int)),
            decreases self.rows - ri,
        {
            let ghost done = if ri <= r { ri as int } else { ri - 1 };
            if ri != r {
                let mut ci: usize = 0;
                while ci < self.cols
                    invariant
                        n + 1 == self.rows,
                        self.rows == self.cols,
                        self.fits(),
                        r < self.rows,
                        c < self.cols,
                        ri < self.rows,
                        ri != r,
                        done == (if ri <= r { ri as int } else { ri - 1 }),
                        ci <= self.cols,
                        data@.len() == done * n + (if ci <= c { ci as int } else { ci - 1 }),
                        forall|i: int, j: int|
                            0 <= i < done && 0 <= j < n ==> #[trigger] data@[i * n + j] == self.entry(
                                skip(i, r as int),
                                skip(j, c as int),
                            ),
                        forall|j: int|
                            0 <= j < (if ci <= c { ci as int } else { ci - 1 }) ==> #[trigger] data@[done
                                * n + j] == self.entry(ri as int, skip(j, c as int)),
                    decreases self.cols - ci,
                {
                    if ci != c {
                        proof {
                            lemma_index_bounds(ri as int, ci as int, self.rows as int, self.cols as int);
                        }
                        let v = self.get(ri, ci);
                        let ghost prev = data@;
                        data.push(v);
                        proof {
                            let cd = if ci <= c { ci as int } else { ci - 1 };
                            assert forall|i: int, j: int|
                                0 <= i < done && 0 <= j < n implies #[trigger] data@[i * n + j]
                                == self.entry(skip(i, r as int), skip(j, c as int)) by {
                                lemma_index_bounds(i, j, done, n as int);
                                assert(data@[i * n + j] == prev[i * n + j]);
                            }
                            assert forall|j: int|
                                0 <= j < cd + 1 implies #[trigger] data@[done * n + j] == self.entry(
                                ri as int,
                                skip(j, c as int),
                            ) by {
                                if j < cd {
                                    assert(data@[done * n + j] == prev[done * n + j]);
                                }
                            }
                        }
                    }
                    ci += 1;
                }
                proof {
                    assert(data@.len() == (done + 1) * n) by (nonlinear_arith)
                        requires
                            data@.len() == done * n + n,
                    ;
                    assert(skip(done, r as int) == ri);
                    assert forall|i: int, j: int|
                        0 <= i < done + 1 && 0 <= j < n implies #[trigger] data@[i * n + j]
                            == self.entry(skip(i, r as int), skip(j, c as int)) by {
                        if i == done {
                            assert(data@[done * n + j] == self.entry(ri as int, skip(j, c as int)));
                        }
                    }
                }
            }
            ri += 1;
        }
        let m = TernaryMatrix { rows: n, cols: n, data };
        assert forall|i: int, j: int| 0 <= i < n && 0 <= j < n implies #[trigger] entries(m)(i, j)
            == minor_of(entries(*self), r as int, c as int)(i, j) by {
            assert(m.entry(i, j) == data@[i * n + j]);
        }
        m
    }

    /// Adjugate: the transpose of the matrix of cofactors.
    #[verifier::spinoff_prover]
    #[verifier::rlimit(40)]
    fn adjugate(&self) -> (a: TernaryMatrix)
        requires
            self.rows == self.cols,
            self.fits(),
        ensures
            a.rows == self.rows,
            a.cols == self.rows,
            a.wf(),
            forall|i: int, j: int|
                0 <= i < self.rows && 0 <= j < self.rows ==> #[trigger] a.entry(i, j) == cofactor(
                    self.rows as nat,
                    entries(*self),
                    j,
                    i,
                ),
    {
        let n = self.rows;
        let len = self.data.len();
        let ghost e = entries(*self);
        let mut data: Vec<Ternary> = Vec::with_capacity(n * n);
        let mut c: usize = 0;
        while c < n
            invariant
                n == self.rows,
                n == self.cols,
                self.fits(),
                len == self.data@.len(),
                e == entries(*self),
                c <= n,
                data@.len() == c * n,
                forall|i: int, j: int|
                    0 <= i < c && 0 <= j < n ==> #[trigger] data@[i * n + j] == cofactor(
                        n as nat,
                        e,
                        j,
                        i,
                    ),
            decreases n - c,
        {
            let mut r: usize = 0;
            while r < n
                invariant
                    n == self.rows,
                    n == self.cols,
                    self.fits(),
                    len == self.data@.len(),
                    e == entries(*self),
                    c < n,
                    r <= n,
                    data@.len() == c * n + r,
                    forall|i: int, j: int|
                        0 <= i < c && 0 <= j < n ==> #[trigger] data@[i * n + j] == cofactor(
                            n as nat,
                            e,
                            j,
                            i,
                        ),
                    forall|j: int|
                        0 <= j < r ==> #[trigger] data@[c * n + j] == cofactor(n as nat, e, j, c as int),
                decreases n - r,
            {
                assert(r + c <= n * n) by (nonlinear_arith)
                    requires
                        r < n,
                        c < n,
                ;
                let sign = if (r + c) % 2 == 0 {
                    Ternary::Pos
                } else {
                    Ternary::Neg
                };
                let mnr = self.minor(r, c);
                let sub = mnr.det_recursive();
                proof {
                    lemma_det_congruent((n - 1) as nat, entries(mnr), minor_of(e, r as int, c as int));
                }
                let cof = sign.mul(sub);
                let ghost prev = data@;
                data.push(cof);
                proof {
                    assert forall|i: int, j: int|
                        0 <= i < c && 0 <= j < n implies #[trigger] data@[i * n + j] == cofactor(
                        n as nat,
                        e,
                        j,
                        i,
                    ) by {
                        lemma_index_bounds(i, j, c as int, n as int);
                        assert(data@[i * n + j] == prev[i * n + j]);
                    }
                    assert forall|j: int| 0 <= j < r + 1 implies #[trigger] data@[c * n + j]
                        == cofactor(n as nat, e, j, c as int) by {
                        if j < r {
                            assert(data@[c * n + j] == prev[c * n + j]);
                        }
                    }
                }
                r += 1;
            }
            proof {
                assert(data@.len() == (c + 1) * n) by (nonlinear_arith)
                    requires
                        data@.len() == c * n + n,
                ;
            }
            c += 1;
        }
        TernaryMatrix { rows: n, cols: n, data }
    }

    /// Inverse over Z/3Z: the adjugate scaled by the inverse of the
    /// determinant; None when the matrix is not square or the determinant is zero.
    pub fn inverse(&self) -> (res: Option<TernaryMatrix>)
        requires
            self.rows == self.cols ==> self.fits(),
        ensures
            res is None <==> (self.rows != self.cols || det(self.rows as nat, entries(*self))
                == Ternary::Zero),
            res matches Some(m) ==> {
                &&& m.rows == self.rows
                &&& m.cols == self.rows
                &&& m.wf()
                &&& forall|i: int, j: int|
                    0 <= i < self.rows && 0 <= j < self.rows ==> #[trigger] m.entry(i, j)
                        == ternary::tmul(
                        cofactor(self.rows as nat, entries(*self), j, i),
                        det(self.rows as nat, entries(*self)),
                    )
            },
    {
        if self.rows != self.cols {
            return None;
        }
        let d = match self.determinant() {
            Some(d) => d,
            None => return None,
        };
        let det_inv = match d.inv() {
            Some(x) => x,
            None => return None,
        };
        assert(det_inv == d);
        let adj = self.adjugate();
        let m = adj.scale(det_inv);
        assert forall|i: int, j: int| 0 <= i < self.rows && 0 <= j < self.rows implies #[trigger] m.entry(i, j)
            == ternary::tmul(
            cofactor(self.rows as nat, entries(*self), j, i),
            det(self.rows as nat, entries(*self)),
        ) by {
            lemma_index_bounds(i, j, self.rows as int, self.rows as int);
            assert(m.entry(i, j) == ternary::tmul(adj.entry(i, j), det_inv));
        }
        Some(m)
    }
    /// Row reduction over Z/3Z to reduced row echelon form. Returns the
    /// reduced matrix and the rank (the number of pivots).
    pub fn row_echelon(&self) -> (res: (TernaryMatrix, usize))
        requires
            self.fits(),
        ensures
            res.0.rows == self.rows,
            res.0.cols == self.cols,
            res.0.data@.len() == self.data@.len(),
            res.1 <= self.rows,
            res.1 <= self.cols,
            keeps_tail(res.0, *self),
            reduced_echelon(res.0, res.1 as nat),
            exists|p: spec_fn(int, int) -> Ternary|
                left_product(p, entries(*self), entries(res.0), self.rows as nat, self.cols as nat),
            exists|q: spec_fn(int, int) -> Ternary|
                left_product(q, entries(res.0), entries(*self), self.rows as nat, self.cols as nat),
    {
        let ghost a = entries(*self);
        let ghost nr = self.rows as nat;
        let ghost nc = self.cols as nat;
        let mut m = TernaryMatrix { rows: self.rows, cols: self.cols, data: self.data.clone() };
        let ghost mut p = ident();
        let ghost mut q = ident();
        let ghost mut piv: Seq<int> = Seq::empty();
        proof {
            reveal(left_product);
            reveal(echelon_upto);
            assert(m.data@ =~= self.data@);
            assert forall|i: int, j: int| 0 <= i < nr && 0 <= j < nc implies #[trigger] entries(m)(i, j)
                == mat_sum(ident(), a, i, j, nr) by {
                lemma_sum_identity(a, i, j, nr);
            }
            assert forall|i: int, j: int| 0 <= i < nr && 0 <= j < nc implies #[trigger] a(i, j)
                == mat_sum(ident(), entries(m), i, j, nr) by {
                lemma_sum_identity(entries(m), i, j, nr);
            }
        }
        let mut pivot_row: usize = 0;
        let mut col: usize = 0;
        while col < m.cols && pivot_row < m.rows
            invariant
                m.rows == self.rows,
                m.cols == self.cols,
                m.data@.len() == self.data@.len(),
                self.fits(),
                keeps_tail(m, *self),
                a == entries(*self),
                nr == self.rows,
                nc == self.cols,
                col <= self.cols,
                pivot_row <= col,
                pivot_row <= self.rows,
                echelon_upto(entries(m), nr, pivot_row as nat, col as nat, piv),
                left_product(p, a, entries(m), nr, nc),
                left_product(q, entries(m), a, nr, nc),
            decreases self.cols - col,
        {
            let ghost b = entries(m);
            let mut found: Option<usize> = None;
            let mut r: usize = pivot_row;
            while r < m.rows && found.is_none()
                invariant
                    m.rows == self.rows,
                    m.cols == self.cols,
                    m.data@.len() == self.data@.len(),
                    self.fits(),
                    keeps_tail(m, *self),
                    col < self.cols,
                    pivot_row <= r <= self.rows,
                    found is None ==> forall|k: int|
                        pivot_row <= k < r ==> #[trigger] m.entry(k, col as int) == Ternary::Zero,
                    found matches Some(x) ==> pivot_row <= x < self.rows && m.entry(x as int, col as int)
                        != Ternary::Zero,
                decreases self.rows - r,
            {
                proof {
                    lemma_index_bounds(r as int, col as int, self.rows as int, self.cols as int);
                }
                if !m.get(r, col).is_zero() {
                    found = Some(r);
                }
                r += 1;
            }
            match found {
                None => {
                    proof {
                        assert forall|k: int| pivot_row <= k < nr implies #[trigger] entries(m)(k, col as int)
                            == Ternary::Zero by {
                            assert(m.entry(k, col as int) == Ternary::Zero);
                        }
                        lemma_no_pivot(entries(m), nr, pivot_row as nat, col as nat, piv);
                    }
                },
                Some(pr) => {
                    let r0 = pivot_row;
                    proof {
                        lemma_index_bounds(pr as int, col as int, self.rows as int, self.cols as int);
                    }
                    let ghost m0 = m;
                    m.exchange_rows(r0, pr);
                    let ghost m1 = m;
                    proof {
                        lemma_index_bounds(r0 as int, col as int, self.rows as int, self.cols as int);
                        assert(m1.entry(r0 as int, col as int) == b(pr as int, col as int));
                    }
                    let pivot_val = m.get(r0, col);
                    let scale = match pivot_val.inv() {
                        Some(x) => x,
                        None => Ternary::Pos,
                    };
                    m.scale_row_by(r0, scale);
                    let ghost m2 = m;
                    m.eliminate_column(r0, col);
                    proof {
                        lemma_after_pivot(m1, m2, m, b, a, p, q, nr, nc, r0 as nat, pr as int, col as nat, piv, scale);
                        p = pivot_step_transform(p, b, r0 as int, pr as int, col as int, scale);
                        q = crate::row_space::pivot_step_undo(q, b, r0 as int, pr as int, col as int, scale, nr);
                        piv = piv.push(col as int);
                    }
                    pivot_row += 1;
                },
            }
            col += 1;
        }
        proof {
            if col < self.cols {
                lemma_echelon_full_rank(entries(m), nr, col as nat, nc, piv);
            }
            reveal(echelon_upto);
            reveal(left_product);
            assert(echelon_upto(entries(m), m.rows as nat, pivot_row as nat, m.cols as nat, piv));
            assert(left_product(p, entries(*self), entries(m), self.rows as nat, self.cols as nat));
            assert(left_product(q, entries(m), entries(*self), self.rows as nat, self.cols as nat));
        }
        (m, pivot_row)
    }
    /// Exchange rows `a` and `b`.
    fn exchange_rows(&mut self, a: usize, b: usize)
        requires
            old(self).fits(),
            a < old(self).rows,
            b < old(self).rows,
        ensures
            final(self).rows == old(self).rows,
            final(self).cols == old(self).cols,
            final(self).data@.len() == old(self).data@.len(),
            final(self).fits(),
            keeps_tail(*final(self), *old(self)),
            forall|i: int, j: int|
                0 <= i < old(self).rows && 0 <= j < old(self).cols ==> #[trigger] final(self).entry(i, j)
                    == swap_rows(entries(*old(self)), a as int, b as int)(i, j),
    {
        let ghost e = entries(*self);
        let ghost nr = self.rows as int;
        let ghost nc = self.cols as int;
        if a != b {
            let mut c: usize = 0;
            while c < self.cols
                invariant
                    self.rows == nr,
                    self.cols == nc,
                    self.data@.len() == old(self).data@.len(),
                    self.fits(),
                    keeps_tail(*self, *old(self)),
                    nr == old(self).rows,
                    nc == old(self).cols,
                    e == entries(*old(self)),
                    a < nr,
                    b < nr,
                    a != b,
                    c <= nc,
                    forall|i: int, j: int|
                        0 <= i < nr && 0 <= j < nc ==> #[trigger] self.entry(i, j) == if j < c {
                            swap_rows(e, a as int, b as int)(i, j)
                        } else {
                            e(i, j)
                        },
                decreases nc - c,
            {
                proof {
                    lemma_index_bounds(a as int, c as int, nr, nc);
                    lemma_index_bounds(b as int, c as int, nr, nc);
                }
                let tmp = self.get(a, c);
                let other = self.get(b, c);
                let ghost m1 = *self;
                self.set(a, c, other);
                proof {
                    lemma_set_entry(m1, *self, a as int, c as int, other);
                }
                let ghost m2 = *self;
                self.set(b, c, tmp);
                proof {
                    lemma_set_entry(m2, *self, b as int, c as int, tmp);
                    lemma_keeps_tail_trans(*old(self), m1, m2);
                    lemma_keeps_tail_trans(*old(self), m2, *self);
                    assert forall|i: int, j: int| 0 <= i < nr && 0 <= j < nc implies #[trigger] self.entry(i, j)
                        == if j < c + 1 {
                        swap_rows(e, a as int, b as int)(i, j)
                    } else {
                        e(i, j)
                    } by {
                        if j == c {
                            assert(m1.entry(a as int, j) == e(a as int, j));
                            assert(m1.entry(b as int, j) == e(b as int, j));
                        }
                    }
                }
                c += 1;
            }
        }
    }

    /// Multiply row `a` by `s`.
    fn scale_row_by(&mut self, a: usize, s: Ternary)
        requires
            old(self).fits(),
            a < old(self).rows,
        ensures
            final(self).rows == old(self).rows,
            final(self).cols == old(self).cols,
            final(self).data@.len() == old(self).data@.len(),
            final(self).fits(),
            keeps_tail(*final(self), *old(self)),
            forall|i: int, j: int|
                0 <= i < old(self).rows && 0 <= j < old(self).cols ==> #[trigger] final(self).entry(i, j)
                    == scale_row(entries(*old(self)), a as int, s)(i, j),
    {
        let ghost e = entries(*self);
        let ghost nr = self.rows as int;
        let ghost nc = self.cols as int;
        let mut c: usize = 0;
        while c < self.cols
            invariant
                self.rows == nr,
                self.cols == nc,
                self.data@.len() == old(self).data@.len(),
                self.fits(),
                keeps_tail(*self, *old(self)),
                nr == old(self).rows,
                nc == old(self).cols,
                e == entries(*old(self)),
                a < nr,
                c <= nc,
                forall|i: int, j: int|
                    0 <= i < nr && 0 <= j < nc ==> #[trigger] self.entry(i, j) == if i == a && j < c {
                        ternary::tmul(e(i, j), s)
                    } else {
                        e(i, j)
                    },
            decreases nc - c,
        {
            proof {
                lemma_index_bounds(a as int, c as int, nr, nc);
            }
            let v = self.get(a, c).mul(s);
            let ghost m1 = *self;
            self.set(a, c, v);
            proof {
                lemma_set_entry(m1, *self, a as int, c as int, v);
                lemma_keeps_tail_trans(*old(self), m1, *self);
            }
            c += 1;
        }
    }

    /// Subtract from every row other than `r0` its entry in column `col`
    /// times row `r0`.
    fn eliminate_column(&mut self, r0: usize, col: usize)
        requires
            old(self).fits(),
            r0 < old(self).rows,
            col < old(self).cols,
        ensures
            final(self).rows == old(self).rows,
            final(self).cols == old(self).cols,
            final(self).data@.len() == old(self).data@.len(),
            final(self).fits(),
            keeps_tail(*final(self), *old(self)),
            forall|i: int, j: int|
                0 <= i < old(self).rows && 0 <= j < old(self).cols ==> #[trigger] final(self).entry(i, j)
                    == if i != r0 {
                    ternary::tsub(
                        old(self).entry(i, j),
                        ternary::tmul(old(self).entry(i, col as int), old(self).entry(r0 as int, j)),
                    )
                } else {
                    old(self).entry(i, j)
                },
    {
        let ghost e = entries(*self);
        let ghost nr = self.rows as int;
        let ghost nc = self.cols as int;
        let mut r: usize = 0;
        while r < self.rows
            invariant
                self.rows == nr,
                self.cols == nc,
                self.data@.len() == old(self).data@.len(),
                self.fits(),
                keeps_tail(*self, *old(self)),
                nr == old(self).rows,
                nc == old(self).cols,
                e == entries(*old(self)),
                r0 < nr,
                col < nc,
                r <= nr,
                forall|i: int, j: int|
                    0 <= i < nr && 0 <= j < nc ==> #[trigger] self.entry(i, j) == if i < r && i != r0 {
                        ternary::tsub(e(i, j), ternary::tmul(e(i, col as int), e(r0 as int, j)))
                    } else {
                        e(i, j)
                    },
            decreases nr - r,
        {
            proof {
                lemma_index_bounds(r as int, col as int, nr, nc);
            }
            if r != r0 {
                let factor = self.get(r, col);
                if !factor.is_zero() {
                    let mut c: usize = 0;
                    while c < self.cols
                        invariant
                            self.rows == nr,
                            self.cols == nc,
                            self.data@.len() == old(self).data@.len(),
                            self.fits(),
                            keeps_tail(*self, *old(self)),
                            nr == old(self).rows,
                            nc == old(self).cols,
                            e == entries(*old(self)),
                            r0 < nr,
                            r < nr,
                            r != r0,
                            col < nc,
                            c <= nc,
                            factor == e(r as int, col as int),
                            forall|i: int, j: int|
                                0 <= i < nr && 0 <= j < nc ==> #[trigger] self.entry(i, j) == if (i < r && i
                                    != r0) || (i == r && j < c) {
                                    ternary::tsub(e(i, j), ternary::tmul(e(i, col as int), e(r0 as int, j)))
                                } else {
                                    e(i, j)
                                },
                        decreases nc - c,
                    {
                        proof {
                            lemma_index_bounds(r as int, c as int, nr, nc);
                            lemma_index_bounds(r0 as int, c as int, nr, nc);
                        }
                        let val = self.get(r, c).sub(factor.mul(self.get(r0, c)));
                        let ghost m1 = *self;
                        self.set(r, c, val);
                        proof {
                            lemma_set_entry(m1, *self, r as int, c as int, val);
                            lemma_keeps_tail_trans(*old(self), m1, *self);
                        }
                        c += 1;
                    }
                } else {
                    proof {
                        assert forall|i: int, j: int| 0 <= i < nr && 0 <= j < nc implies #[trigger] self.entry(i, j)
                            == if i < r + 1 && i != r0 {
                            ternary::tsub(e(i, j), ternary::tmul(e(i, col as int), e(r0 as int, j)))
                        } else {
                            e(i, j)
                        } by {
                            if i == r {
                                assert(ternary::tmul(Ternary::Zero, e(r0 as int, j)) == Ternary::Zero);
                                assert(ternary::tsub(e(i, j), Ternary::Zero) == e(i, j));
                            }
                        }
                    }
                }
            }
            r += 1;
        }
    }
    /// The matrix as text: one line per row, "[" then the entries
    /// right-aligned in three characters and separated by spaces, then "]".
    pub fn to_string(&self) -> (text: String)
        requires
            self.fits(),
        ensures
            text@ == matrix_text(*self, self.rows as nat),
    {
        let mut s = String::new();
        let mut r: usize = 0;
        while r < self.rows
            invariant
                self.fits(),
                r <= self.rows,
                s@ == matrix_text(*self, r as nat),
            decreases self.rows - r,
        {
            s.append("[");
            proof {
                reveal_strlit("[");
            }
            let ghost before = s@;
            let mut c: usize = 0;
            while c < self.cols
                invariant
                    self.fits(),
                    r < self.rows,
                    c <= self.cols,
                    s@ == before + row_cells(*self, r as int, c as nat),
                decreases self.cols - c,
            {
                if c > 0 {
                    s.append(" ");
                    proof {
                        reveal_strlit(" ");
                    }
                }
                proof {
                    lemma_index_bounds(r as int, c as int, self.rows as int, self.cols as int);
                    reveal_strlit(" -1");
                    reveal_strlit("  0");
                    reveal_strlit(" +1");
                }
                match self.get(r, c) {
                    Ternary::Neg => s.append(" -1"),
                    Ternary::Zero => s.append("  0"),
                    Ternary::Pos => s.append(" +1"),
                }
                assert(s@ =~= before + row_cells(*self, r as int, (c + 1) as nat));
                c += 1;
            }
            s.append("]\n");
            proof {
                reveal_strlit("]\n");
            }
            assert(s@ =~= matrix_text(*self, (r + 1) as nat));
            r += 1;
        }
        s
    }
}

} // verus!
