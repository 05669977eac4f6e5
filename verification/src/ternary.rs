//! The ternary digit {-1, 0, +1} with arithmetic in the field Z/3Z.
//!
//! Addition wraps around: 1 + 1 = -1 and -1 + -1 = 1 (mod 3).
//! Multiplication follows the sign rules.

use vstd::prelude::*;

verus! {

/// The ternary digit: negative (-1), zero (0) or positive (+1).
///
/// `Neg` stands for -1 = 2 (mod 3), `Zero` for 0 and `Pos` for 1.
#[derive(Debug, Clone, Copy, PartialEq, Eq, Hash, Structural)]
pub enum Ternary {
    Neg,
    Zero,
    Pos,
}

/// The integer that a trit stands for: -1, 0 or 1.
pub open spec fn tval(t: Ternary) -> int {
    match t {
        Ternary::Neg => -1,
        Ternary::Zero => 0,
        Ternary::Pos => 1,
    }
}

/// The residue class of an integer modulo 3, as a trit.
pub open spec fn tfrom(v: int) -> Ternary {
    let r = v % 3;
    if r == 0 {
        Ternary::Zero
    } else if r == 1 {
        Ternary::Pos
    } else {
        Ternary::Neg
    }
}

/// Sum in Z/3Z.
pub open spec fn tadd(a: Ternary, b: Ternary) -> Ternary {
    tfrom(tval(a) + tval(b))
}

/// Product in Z/3Z.
pub open spec fn tmul(a: Ternary, b: Ternary) -> Ternary {
    tfrom(tval(a) * tval(b))
}

/// Additive inverse in Z/3Z.
pub open spec fn tneg(a: Ternary) -> Ternary {
    tfrom(-tval(a))
}

/// Difference in Z/3Z.
pub open spec fn tsub(a: Ternary, b: Ternary) -> Ternary {
    tfrom(tval(a) - tval(b))
}

/// The characters with which a trit is written: "-1", "0" or "+1".
pub open spec fn tsymbol(t: Ternary) -> Seq<char> {
    match t {
        Ternary::Neg => seq!['-', '1'],
        Ternary::Zero => seq!['0'],
        Ternary::Pos => seq!['+', '1'],
    }
}

impl Ternary {
    /// Convert from i32 to Ternary (mod 3): 0 -> Zero, 1 -> Pos, 2 -> Neg.
    pub fn from_i32(v: i32) -> (r: Self)
        ensures
            r == tfrom(v as int),
    {
        let m = ((v % 3) + 3) % 3;
        if m == 0 {
            Ternary::Zero
        } else if m == 1 {
            Ternary::Pos
        } else {
            Ternary::Neg
        }
    }

    /// Convert Ternary to i32.
    pub fn to_i32(self) -> (r: i32)
        ensures
            r as int == tval(self),
    {
        match self {
            Ternary::Neg => -1,
            Ternary::Zero => 0,
            Ternary::Pos => 1,
        }
    }

    /// Negation: -x.
    pub fn neg(self) -> (r: Self)
        ensures
            r == tneg(self),
    {
        match self {
            Ternary::Neg => Ternary::Pos,
            Ternary::Zero => Ternary::Zero,
            Ternary::Pos => Ternary::Neg,
        }
    }

    /// Addition in Z/3Z (wrap-around).
    pub fn add(self, other: Self) -> (r: Self)
        ensures
            r == tadd(self, other),
    {
        Self::from_i32(self.to_i32() + other.to_i32())
    }

    /// Subtraction in Z/3Z.
    pub fn sub(self, other: Self) -> (r: Self)
        ensures
            r == tsub(self, other),
    {
        self.add(other.neg())
    }

    /// Multiplication in Z/3Z.
    pub fn mul(self, other: Self) -> (r: Self)
        ensures
            r == tmul(self, other),
    {
        let x = self.to_i32();
        let y = other.to_i32();
        let p = x * y;
        assert(tval(self) * tval(other) == p) by (nonlinear_arith)
            requires
                tval(self) == x as int,
                tval(other) == y as int,
                p == x * y,
        ;
        Self::from_i32(p)
    }

    /// Multiplicative inverse. Only Pos and Neg have inverses:
    /// Pos⁻¹ = Pos and Neg⁻¹ = Neg.
    pub fn inv(self) -> (r: Option<Self>)
        ensures
            r is None <==> self == Ternary::Zero,
            r matches Some(x) ==> tmul(self, x) == Ternary::Pos,
    {
        match self {
            Ternary::Zero => None,
            Ternary::Pos => Some(Ternary::Pos),
            Ternary::Neg => Some(Ternary::Neg),
        }
    }

    /// All variants in order.
    pub fn all() -> (r: [Self; 3])
        ensures
            r@ == seq![Ternary::Neg, Ternary::Zero, Ternary::Pos],
    {
        [Ternary::Neg, Ternary::Zero, Ternary::Pos]
    }

    /// Is this zero?
    pub fn is_zero(self) -> (r: bool)
        ensures
            r == (self == Ternary::Zero),
    {
        self == Ternary::Zero
    }

    /// The text of the trit: "-1", "0" or "+1".
    pub fn to_string(self) -> (r: String)
        ensures
            r@ == tsymbol(self),
    {
        let mut s = String::new();
        match self {
            Ternary::Neg => {
                s.append("-1");
                proof {
                    reveal_strlit("-1");
                }
            },
            Ternary::Zero => {
                s.append("0");
                proof {
                    reveal_strlit("0");
                }
            },
            Ternary::Pos => {
                s.append("+1");
                proof {
                    reveal_strlit("+1");
                }
            },
        }
        s
    }
}

impl Default for Ternary {
    fn default() -> (r: Self)
        ensures
            r == Ternary::Zero,
    {
        Ternary::Zero
    }
}

/// Converting a trit to its integer and back gives the trit.
pub proof fn lemma_from_val(t: Ternary)
    ensures
        tfrom(tval(t)) == t,
{
}

/// Reducing modulo 3 is compatible with addition and multiplication of integers.
pub proof fn lemma_tfrom_homomorphism(x: int, y: int)
    ensures
        tfrom(x + y) == tadd(tfrom(x), tfrom(y)),
        tfrom(x * y) == tmul(tfrom(x), tfrom(y)),
{
    let rx = x % 3;
    let ry = y % 3;
    assert(x == 3 * (x / 3) + rx);
    assert(y == 3 * (y / 3) + ry);
    assert((x * y) % 3 == (rx * ry) % 3) by (nonlinear_arith)
        requires
            x == 3 * (x / 3) + rx,
            y == 3 * (y / 3) + ry,
    {
        assert(x * y == 3 * (3 * (x / 3) * (y / 3) + (x / 3) * ry + rx * (y / 3)) + rx * ry);
    }
}

/// Negation is an involution: -(-x) = x.
pub proof fn lemma_neg_involution(a: Ternary)
    ensures
        tneg(tneg(a)) == a,
{
}

/// Zero is the additive identity: x + 0 = 0 + x = x.
pub proof fn lemma_add_identity(a: Ternary)
    ensures
        tadd(a, Ternary::Zero) == a,
        tadd(Ternary::Zero, a) == a,
{
}

/// One is the multiplicative identity: x * 1 = 1 * x = x.
pub proof fn lemma_mul_identity(a: Ternary)
    ensures
        tmul(a, Ternary::Pos) == a,
        tmul(Ternary::Pos, a) == a,
{
}

/// Addition and multiplication are commutative.
pub proof fn lemma_commutative(a: Ternary, b: Ternary)
    ensures
        tadd(a, b) == tadd(b, a),
        tmul(a, b) == tmul(b, a),
{
}

/// Addition and multiplication are associative.
pub proof fn lemma_associative(a: Ternary, b: Ternary, c: Ternary)
    ensures
        tadd(tadd(a, b), c) == tadd(a, tadd(b, c)),
        tmul(tmul(a, b), c) == tmul(a, tmul(b, c)),
{
}

/// Multiplication distributes over addition: a * (b + c) = a * b + a * c.
pub proof fn lemma_distributive(a: Ternary, b: Ternary, c: Ternary)
    ensures
        tmul(a, tadd(b, c)) == tadd(tmul(a, b), tmul(a, c)),
{
}

/// Every element has an additive inverse: x + (-x) = 0.
pub proof fn lemma_additive_inverse(a: Ternary)
    ensures
        tadd(a, tneg(a)) == Ternary::Zero,
{
}

/// Subtraction is addition of the negation: a - b = a + (-b).
pub proof fn lemma_sub_is_add_neg(a: Ternary, b: Ternary)
    ensures
        tsub(a, b) == tadd(a, tneg(b)),
{
}

/// Multiplying by minus one negates: (-1) * x = -x.
pub proof fn lemma_mul_neg_one(a: Ternary)
    ensures
        tmul(Ternary::Neg, a) == tneg(a),
        tmul(a, Ternary::Neg) == tneg(a),
{
}

/// Negation moves through products: (-x)·y = x·(-y) = -(x·y).
pub proof fn lemma_neg_mul(x: Ternary, y: Ternary)
    ensures
        tmul(tneg(x), y) == tneg(tmul(x, y)),
        tmul(x, tneg(y)) == tneg(tmul(x, y)),
{
}

/// A trit equal to its own negation is zero.
pub proof fn lemma_self_neg_zero(x: Ternary)
    requires
        x == tneg(x),
    ensures
        x == Ternary::Zero,
{
}

/// Multiplying by a sign twice changes nothing: s·(s·x) = x for s = ±1.
pub proof fn lemma_sign_twice(s: Ternary, x: Ternary)
    requires
        s != Ternary::Zero,
    ensures
        tmul(s, tmul(s, x)) == x,
{
}

/// A nonzero trit squares to one.
pub proof fn lemma_square_nonzero(x: Ternary)
    requires
        x != Ternary::Zero,
    ensures
        tmul(x, x) == Ternary::Pos,
{
}

/// Addition cancels: x + z = y + z implies x = y.
pub proof fn lemma_add_cancel(x: Ternary, y: Ternary, z: Ternary)
    requires
        tadd(x, z) == tadd(y, z),
    ensures
        x == y,
{
}

/// Scaling both factors by the same nonzero trit keeps the product:
/// (q·s)·(x·s) = q·x.
pub proof fn lemma_scale_cancel(q: Ternary, x: Ternary, s: Ternary)
    requires
        s != Ternary::Zero,
    ensures
        tmul(q, x) == tmul(tmul(q, s), tmul(x, s)),
{
    lemma_associative(q, s, tmul(x, s));
    lemma_associative(s, x, s);
    lemma_commutative(s, x);
    lemma_associative(x, s, s);
    lemma_square_nonzero(s);
    lemma_mul_identity(x);
}

/// Undoing one elimination step on a product term:
/// q·x = q·(x - f·y) + y·(q·f), and for the pivot row (f = 0) q·x = q·x + y·(q·0).
pub proof fn lemma_elim_undo_term(q: Ternary, x: Ternary, f: Ternary, y: Ternary, pivot: bool)
    requires
        pivot ==> f == Ternary::Zero,
    ensures
        pivot ==> tmul(q, x) == tadd(tmul(q, x), tmul(y, tmul(q, f))),
        !pivot ==> tmul(q, x) == tadd(tmul(q, tsub(x, tmul(f, y))), tmul(y, tmul(q, f))),
{
    match q {
        Ternary::Neg => match f {
            Ternary::Neg => {},
            Ternary::Zero => {},
            Ternary::Pos => {},
        },
        Ternary::Zero => {},
        Ternary::Pos => match f {
            Ternary::Neg => {},
            Ternary::Zero => {},
            Ternary::Pos => {},
        },
    }
}

/// Multiplication distributes over addition on the right: (x + c)·y = x·y + c·y.
pub proof fn lemma_distributive_right(x: Ternary, c: Ternary, y: Ternary)
    ensures
        tmul(tadd(x, c), y) == tadd(tmul(x, y), tmul(c, y)),
{
    lemma_distributive(y, x, c);
    lemma_commutative(tadd(x, c), y);
    lemma_commutative(x, y);
    lemma_commutative(c, y);
}

/// Zero absorbs products and is neutral for sums and differences.
pub proof fn lemma_zero_facts(x: Ternary)
    ensures
        tmul(x, Ternary::Zero) == Ternary::Zero,
        tmul(Ternary::Zero, x) == Ternary::Zero,
        tsub(x, Ternary::Zero) == x,
        tadd(x, Ternary::Zero) == x,
        tadd(Ternary::Zero, x) == x,
        tsub(Ternary::Zero, tmul(x, Ternary::Zero)) == Ternary::Zero,
{
}

/// The characteristic is three: x + x + x = 0 for every x.
pub proof fn lemma_characteristic_three(a: Ternary)
    ensures
        tadd(tadd(a, a), a) == Ternary::Zero,
{
}

/// There are no zero divisors: a product is zero only when a factor is zero.
pub proof fn lemma_no_zero_divisors(a: Ternary, b: Ternary)
    ensures
        tmul(a, b) == Ternary::Zero <==> (a == Ternary::Zero || b == Ternary::Zero),
{
}

/// Scaling a row while accumulating a product: acc·s + (u·s)·v = (acc + u·v)·s.
pub proof fn lemma_scale_step(acc: Ternary, u: Ternary, v: Ternary, s: Ternary)
    ensures
        tadd(tmul(acc, s), tmul(tmul(u, s), v))
            == tmul(tadd(acc, tmul(u, v)), s),
{
    lemma_associative(u, s, v);
    lemma_commutative(s, v);
    lemma_associative(u, v, s);
    lemma_distributive_right(acc, tmul(u, v), s);
}

/// Subtracting a multiple of a row, times v: (u - f·w)·v = u·v - f·(w·v).
pub proof fn lemma_sub_step_mul(u: Ternary, f: Ternary, w: Ternary, v: Ternary)
    ensures
        tmul(tsub(u, tmul(f, w)), v) == tsub(
            tmul(u, v),
            tmul(f, tmul(w, v)),
        ),
{
    lemma_sub_is_add_neg(u, tmul(f, w));
    lemma_sub_is_add_neg(tmul(u, v), tmul(f, tmul(w, v)));
    lemma_commutative(tadd(u, tneg(tmul(f, w))), v);
    lemma_distributive(v, u, tneg(tmul(f, w)));
    lemma_commutative(v, u);
    lemma_neg_mul_assoc(f, w, v);
}

/// v·(-(f·w)) = -(f·(w·v)).
pub proof fn lemma_neg_mul_assoc(f: Ternary, w: Ternary, v: Ternary)
    ensures
        tmul(v, tneg(tmul(f, w))) == tneg(tmul(f, tmul(w, v))),
{
    match f {
        Ternary::Neg => {},
        Ternary::Zero => {},
        Ternary::Pos => {},
    }
}

/// Subtracting multiples term by term: (s1 - f·s2) + (x - f·y) = (s1 + x) - f·(s2 + y).
pub proof fn lemma_sub_step_add(s1: Ternary, f: Ternary, s2: Ternary, x: Ternary, y: Ternary)
    ensures
        tadd(tsub(s1, tmul(f, s2)), tsub(x, tmul(f, y)))
            == tsub(tadd(s1, x), tmul(f, tadd(s2, y))),
{
    match f {
        Ternary::Neg => match s2 {
            Ternary::Neg => {},
            Ternary::Zero => {},
            Ternary::Pos => {},
        },
        Ternary::Zero => {},
        Ternary::Pos => match s2 {
            Ternary::Neg => {},
            Ternary::Zero => {},
            Ternary::Pos => {},
        },
    }
}

/// The Z/3Z identity behind the 2 × 2 determinant: 1·a·d + (-1)·b·c = a·d - b·c.
pub proof fn lemma_det_two_terms(a: Ternary, b: Ternary, c: Ternary, d: Ternary)
    ensures
        tadd(
            tadd(Ternary::Zero, tmul(tmul(Ternary::Pos, a), d)),
            tmul(tmul(Ternary::Neg, b), c),
        ) == tsub(tmul(a, d), tmul(b, c)),
{
    lemma_mul_identity(a);
    lemma_add_identity(tmul(a, d));
    lemma_associative(Ternary::Neg, b, c);
    lemma_mul_neg_one(tmul(b, c));
    lemma_sub_is_add_neg(tmul(a, d), tmul(b, c));
}

/// -(x + y) = (-x) + (-y).
pub proof fn lemma_neg_add(x: Ternary, y: Ternary)
    ensures
        tneg(tadd(x, y)) == tadd(tneg(x), tneg(y)),
{
}

/// (a + b) + (c + d) = (a + c) + (b + d).
pub proof fn lemma_add_swap_middle(a: Ternary, b: Ternary, c: Ternary, d: Ternary)
    ensures
        tadd(tadd(a, b), tadd(c, d)) == tadd(
            tadd(a, c),
            tadd(b, d),
        ),
{
    lemma_associative(a, b, tadd(c, d));
    lemma_associative(b, c, d);
    lemma_commutative(b, c);
    lemma_associative(c, b, d);
    lemma_associative(a, c, tadd(b, d));
}

/// (s·x) · ((t·y) · z) = (((s·t)·x)·y)·z.
pub proof fn lemma_mul_regroup(s: Ternary, x: Ternary, t: Ternary, y: Ternary, z: Ternary)
    ensures
        tmul(tmul(s, x), tmul(tmul(t, y), z)) == tmul(
            tmul(tmul(tmul(s, t), x), y),
            z,
        ),
{
    let inner = tmul(tmul(t, y), z);
    lemma_associative(s, x, inner);
    lemma_associative(t, y, z);
    // x · (t · (y·z)) = t · (x · (y·z))
    lemma_associative(x, t, tmul(y, z));
    lemma_commutative(x, t);
    lemma_associative(t, x, tmul(y, z));
    // s · (t · w) = (s·t) · w with w = x·(y·z)
    lemma_associative(s, t, tmul(x, tmul(y, z)));
    // (s·t)·(x·(y·z)) = (((s·t)·x)·y)·z
    let st = tmul(s, t);
    lemma_associative(x, y, z);
    lemma_associative(st, tmul(x, y), z);
    lemma_associative(st, x, y);
}

/// ((-s)·y)·x)·z = -(((s·x)·y)·z).
pub proof fn lemma_term_reverse(s: Ternary, x: Ternary, y: Ternary, z: Ternary)
    ensures
        tmul(tmul(tmul(tneg(s), y), x), z) == tneg(
            tmul(tmul(tmul(s, x), y), z),
        ),
{
    let w = tmul(tmul(tmul(s, x), y), z);
    // ((-s)·y)·x = -((s·x)·y)
    lemma_associative(tneg(s), y, x);
    lemma_commutative(y, x);
    lemma_associative(s, x, y);
    lemma_neg_mul(s, tmul(x, y));
    lemma_neg_mul(tmul(tmul(s, x), y), z);
}

/// x·((s·t)·d) = s·((t·x)·d).
pub proof fn lemma_row_term_regroup(s: Ternary, t: Ternary, x: Ternary, d: Ternary)
    ensures
        tmul(x, tmul(tmul(s, t), d)) == tmul(
            s,
            tmul(tmul(t, x), d),
        ),
{
    lemma_associative(s, t, d);
    lemma_associative(x, s, tmul(t, d));
    lemma_commutative(x, s);
    lemma_associative(s, x, tmul(t, d));
    lemma_associative(x, t, d);
    lemma_commutative(x, t);
    lemma_associative(t, x, d);
}

/// x·(c·d) = d·(x·c).
pub proof fn lemma_scale_regroup(x: Ternary, c: Ternary, d: Ternary)
    ensures
        tmul(x, tmul(c, d)) == tmul(d, tmul(x, c)),
{
    lemma_associative(x, c, d);
    lemma_commutative(tmul(x, c), d);
}

/// The last two factors of a product can be exchanged: (s·a)·b = (s·b)·a.
pub proof fn lemma_swap_last(s: Ternary, a: Ternary, b: Ternary)
    ensures
        tmul(tmul(s, a), b) == tmul(tmul(s, b), a),
{
    lemma_associative(s, a, b);
    lemma_commutative(a, b);
    lemma_associative(s, b, a);
}

} // verus!
