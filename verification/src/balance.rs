//! Balanced ternary numerals: an integer written as Σ digits[i] × 3^i with
//! every digit in {-1, 0, +1}, least significant digit first.

use vstd::prelude::*;
use crate::ternary::{self, Ternary};

verus! {

/// 3 to the power `n`.
pub open spec fn pow3(n: nat) -> int
    decreases n,
{
    if n == 0 {
        1
    } else {
        3 * pow3((n - 1) as nat)
    }
}

/// The integer that a digit sequence (least significant first) stands for.
pub open spec fn digits_value(d: Seq<Ternary>) -> int
    decreases d.len(),
{
    if d.len() == 0 {
        0
    } else {
        digits_value(d.drop_last()) + ternary::tval(d.last()) * pow3((d.len() - 1) as nat)
    }
}

/// A digit sequence in canonical form: at least one digit, and no leading
/// (most significant) zero unless the number is the single digit zero.
pub open spec fn canonical(d: Seq<Ternary>) -> bool {
    d.len() >= 1 && (d.len() == 1 || d.last() != Ternary::Zero)
}

pub open spec fn abs(x: int) -> int {
    if x < 0 {
        -x
    } else {
        x
    }
}

/// Powers of three are positive.
pub proof fn lemma_pow3_positive(n: nat)
    ensures
        pow3(n) >= 1,
    decreases n,
{
    if n > 0 {
        lemma_pow3_positive((n - 1) as nat);
    }
}

/// Powers of three grow with the exponent.
pub proof fn lemma_pow3_monotone(m: nat, n: nat)
    requires
        m <= n,
    ensures
        pow3(m) <= pow3(n),
    decreases n,
{
    if m < n {
        lemma_pow3_monotone(m, (n - 1) as nat);
        lemma_pow3_positive((n - 1) as nat);
    }
}

/// The largest power of three that fits in an i64.
pub proof fn lemma_pow3_39()
    ensures
        pow3(39) == 4052555153018976267,
{
    reveal_with_fuel(pow3, 14);
    assert(pow3(13) == 1594323);
    assert(pow3(26) == 2541865828329) by {
        reveal_with_fuel(pow3, 14);
        lemma_pow3_add(13, 13);
    }
    lemma_pow3_add(26, 13);
}

/// Powers of three multiply by adding exponents.
pub proof fn lemma_pow3_add(m: nat, n: nat)
    ensures
        pow3(m + n) == pow3(m) * pow3(n),
    decreases n,
{
    if n > 0 {
        lemma_pow3_add(m, (n - 1) as nat);
        assert(pow3(m + n) == 3 * pow3((m + n - 1) as nat));
        assert(pow3(m) * (3 * pow3((n - 1) as nat)) == 3 * (pow3(m) * pow3((n - 1) as nat)))
            by (nonlinear_arith);
    }
}

/// Appending a digit adds it at the next power of three.
pub proof fn lemma_value_push(d: Seq<Ternary>, t: Ternary)
    ensures
        digits_value(d.push(t)) == digits_value(d) + ternary::tval(t) * pow3(d.len()),
{
    assert(d.push(t).drop_last() =~= d);
}

/// A sequence of `n` digits stands for a value of magnitude at most (3^n - 1) / 2.
pub proof fn lemma_value_bound(d: Seq<Ternary>)
    ensures
        2 * abs(digits_value(d)) <= pow3(d.len()) - 1,
    decreases d.len(),
{
    if d.len() > 0 {
        lemma_value_bound(d.drop_last());
        lemma_pow3_positive((d.len() - 1) as nat);
    }
}

/// `r` is `d` with its most significant zero digits removed, keeping at
/// least one digit when `d` has any.
pub open spec fn trimmed(d: Seq<Ternary>, r: Seq<Ternary>) -> bool {
    &&& r.len() <= d.len()
    &&& r == d.subrange(0, r.len() as int)
    &&& forall|i: int| r.len() <= i < d.len() ==> d[i] == Ternary::Zero
    &&& (r.len() <= 1 || r.last() != Ternary::Zero)
    &&& (d.len() >= 1 ==> r.len() >= 1)
}

/// `s` padded with zero digits (or cut) to `n` digits.
pub open spec fn padded(s: Seq<Ternary>, n: nat) -> Seq<Ternary> {
    Seq::new(n, |k: int| if k < s.len() { s[k] } else { Ternary::Zero })
}

/// The character with which a digit is written: '-', '0' or '+'.
pub open spec fn digit_char(t: Ternary) -> char {
    match t {
        Ternary::Neg => '-',
        Ternary::Zero => '0',
        Ternary::Pos => '+',
    }
}

/// The text of a digit sequence, most significant digit first; "0" when empty.
pub open spec fn msb_text(d: Seq<Ternary>) -> Seq<char> {
    if d.len() == 0 {
        seq!['0']
    } else {
        Seq::new(d.len(), |i: int| digit_char(d[d.len() - 1 - i]))
    }
}

/// Zero digits at the most significant end do not change the value.
pub proof fn lemma_value_trailing_zero(d: Seq<Ternary>)
    requires
        d.len() > 0,
        d.last() == Ternary::Zero,
    ensures
        digits_value(d) == digits_value(d.drop_last()),
{
}

/// Padding with zero digits keeps the value.
pub proof fn lemma_value_padded(s: Seq<Ternary>, n: nat)
    requires
        n >= s.len(),
    ensures
        digits_value(padded(s, n)) == digits_value(s),
    decreases n,
{
    if n == s.len() {
        assert(padded(s, n) =~= s);
    } else {
        lemma_value_padded(s, (n - 1) as nat);
        assert(padded(s, n).drop_last() =~= padded(s, (n - 1) as nat));
    }
}

/// Cutting a trimmed prefix keeps the value.
pub proof fn lemma_value_trimmed(d: Seq<Ternary>, r: Seq<Ternary>)
    requires
        trimmed(d, r),
    ensures
        digits_value(r) == digits_value(d),
    decreases d.len(),
{
    if d.len() > r.len() {
        let e = d.drop_last();
        assert(e.subrange(0, r.len() as int) =~= d.subrange(0, r.len() as int));
        lemma_value_trimmed(e, r);
        lemma_value_trailing_zero(d);
    } else {
        assert(r =~= d);
    }
}

/// Negating every digit negates the value.
pub proof fn lemma_value_map_neg(d: Seq<Ternary>)
    ensures
        digits_value(Seq::new(d.len(), |i: int| ternary::tneg(d[i]))) == -digits_value(d),
    decreases d.len(),
{
    let n = Seq::new(d.len(), |i: int| ternary::tneg(d[i]));
    if d.len() > 0 {
        let e = d.drop_last();
        lemma_value_map_neg(e);
        assert(n.drop_last() =~= Seq::new(e.len(), |i: int| ternary::tneg(e[i])));
        assert(ternary::tval(n.last()) == -ternary::tval(d.last()));
        let p = pow3((d.len() - 1) as nat);
        assert(ternary::tval(n.last()) * p == -(ternary::tval(d.last()) * p)) by (nonlinear_arith)
            requires
                ternary::tval(n.last()) == -ternary::tval(d.last()),
        ;
    }
}

/// Multiplying every digit by a trit multiplies the value by it.
pub proof fn lemma_value_map_mul(d: Seq<Ternary>, t: Ternary)
    ensures
        digits_value(Seq::new(d.len(), |i: int| ternary::tmul(d[i], t))) == digits_value(d)
            * ternary::tval(t),
    decreases d.len(),
{
    let n = Seq::new(d.len(), |i: int| ternary::tmul(d[i], t));
    if d.len() > 0 {
        let e = d.drop_last();
        lemma_value_map_mul(e, t);
        assert(n.drop_last() =~= Seq::new(e.len(), |i: int| ternary::tmul(e[i], t)));
        assert(ternary::tval(n.last()) == ternary::tval(d.last()) * ternary::tval(t));
        let p = pow3((d.len() - 1) as nat);
        let x = digits_value(e);
        assert((x + ternary::tval(d.last()) * p) * ternary::tval(t) == x * ternary::tval(t) + (
        ternary::tval(d.last()) * ternary::tval(t)) * p) by (nonlinear_arith);
    }
}

/// Two digit sequences of the same length with the same value are equal.
pub proof fn lemma_value_injective_same_len(d1: Seq<Ternary>, d2: Seq<Ternary>)
    requires
        d1.len() == d2.len(),
        digits_value(d1) == digits_value(d2),
    ensures
        d1 == d2,
    decreases d1.len(),
{
    if d1.len() == 0 {
        assert(d1 =~= d2);
    } else {
        let n = d1.len();
        let p = pow3((n - 1) as nat);
        let (e1, e2) = (d1.drop_last(), d2.drop_last());
        lemma_value_bound(e1);
        lemma_value_bound(e2);
        let (t1, t2) = (ternary::tval(d1.last()), ternary::tval(d2.last()));
        assert(digits_value(e1) + t1 * p == digits_value(e2) + t2 * p);
        if t1 != t2 {
            assert((t1 - t2) * p == digits_value(e2) - digits_value(e1)) by (nonlinear_arith)
                requires
                    digits_value(e1) + t1 * p == digits_value(e2) + t2 * p,
            ;
            if t1 - t2 == 1 || t1 - t2 == -1 {
            } else {
                assert(t1 - t2 == 2 || t1 - t2 == -2);
            }
        }
        assert(d1.last() == d2.last());
        lemma_value_injective_same_len(e1, e2);
        assert(d1 =~= e1.push(d1.last()));
        assert(d2 =~= e2.push(d2.last()));
    }
}

/// Every integer has exactly one canonical balanced ternary representation:
/// two canonical digit sequences with the same value are equal.
pub proof fn lemma_canonical_unique(d1: Seq<Ternary>, d2: Seq<Ternary>)
    requires
        canonical(d1),
        canonical(d2),
        digits_value(d1) == digits_value(d2),
    ensures
        d1 == d2,
{
    if d1.len() < d2.len() {
        lemma_value_padded(d1, d2.len());
        lemma_value_injective_same_len(padded(d1, d2.len()), d2);
        assert(d2.last() == padded(d1, d2.len())[d2.len() - 1]);
    } else if d2.len() < d1.len() {
        lemma_value_padded(d2, d1.len());
        lemma_value_injective_same_len(padded(d2, d1.len()), d1);
        assert(d1.last() == padded(d2, d1.len())[d1.len() - 1]);
    } else {
        lemma_value_injective_same_len(d1, d2);
    }
}

/// Converting an i32 to digits and back gives the i32: the digits that
/// `from_i32` returns for `v` stand for `v`, and `to_i32` of any digits
/// that stand for `v` returns `v`.
pub proof fn lemma_i32_roundtrip(v: i32, d: Seq<Ternary>)
    requires
        digits_value(d) == v as int,
    ensures
        #[verifier::truncate] (digits_value(d) as i32) == v,
{
}

/// Balanced ternary is self-signing: a canonical numeral is positive
/// exactly when its most significant digit is +1, negative exactly when it
/// is -1, and zero exactly when it is the single digit 0.
pub proof fn lemma_sign_of_leading_digit(d: Seq<Ternary>)
    requires
        canonical(d),
    ensures
        digits_value(d) > 0 <==> d.last() == Ternary::Pos,
        digits_value(d) < 0 <==> d.last() == Ternary::Neg,
        digits_value(d) == 0 <==> d == seq![Ternary::Zero],
{
    let n = d.len();
    let e = d.drop_last();
    let p = pow3((n - 1) as nat);
    lemma_value_bound(e);
    lemma_pow3_positive((n - 1) as nat);
    assert(digits_value(d) == digits_value(e) + ternary::tval(d.last()) * p);
    if n == 1 {
        assert(e =~= Seq::<Ternary>::empty());
        assert(digits_value(e) == 0);
        if d.last() == Ternary::Zero {
            assert(d =~= seq![Ternary::Zero]);
        }
    } else {
        assert(d != seq![Ternary::Zero]);
    }
}

/// Addition is commutative on numerals: a + b and b + a give the same
/// digits, since both are the canonical numeral of the same value.
pub proof fn lemma_add_commutative(a: Seq<Ternary>, b: Seq<Ternary>, r1: Seq<Ternary>, r2: Seq<Ternary>)
    requires
        digits_value(r1) == digits_value(a) + digits_value(b),
        canonical(r1),
        digits_value(r2) == digits_value(b) + digits_value(a),
        canonical(r2),
    ensures
        r1 == r2,
{
    lemma_canonical_unique(r1, r2);
}

/// A balanced ternary number: Σ digits[i] × 3^i, digits[0] least significant.
#[derive(Debug, Clone, PartialEq, Eq)]
pub struct BalancedTernary {
    pub digits: Vec<Ternary>,
}

impl BalancedTernary {
    /// The value of this number.
    pub open spec fn value(&self) -> int {
        digits_value(self.digits@)
    }

    /// Create zero.
    pub fn zero() -> (r: Self)
        ensures
            r.digits@ == seq![Ternary::Zero],
    {
        BalancedTernary { digits: vec![Ternary::Zero] }
    }

    /// Create from an i32 value. The digits are canonical and stand for `v`.
    pub fn from_i32(v: i32) -> (r: Self)
        ensures
            digits_value(r.digits@) == v as int,
            canonical(r.digits@),
            r.digits@.len() <= 21,
    {
        if v == 0 {
            let z = Self::zero();
            proof {
                lemma_value_push(Seq::<Ternary>::empty(), Ternary::Zero);
                assert(Seq::<Ternary>::empty().push(Ternary::Zero) =~= z.digits@);
            }
            return z;
        }
        let mut value: i32 = v;
        let mut digits: Vec<Ternary> = Vec::new();
        while value != 0
            invariant
                v != 0,
                v as int == digits_value(digits@) + value as int * pow3(digits@.len()),
                digits@.len() <= 21,
                value != 0 ==> pow3(digits@.len()) * (2 * abs(value as int) - 1) <= 2 * abs(v as int) - 1,
                value == 0 ==> digits@.len() > 0 && digits@.last() != Ternary::Zero,
            decreases abs(value as int),
        {
            let ghost old_value = value;
            let ghost old_digits = digits@;
            let mut r = value % 3;
            value = value / 3;
            if r > 1 {
                r = r - 3;
                value = value + 1;
            } else if r < -1 {
                r = r + 3;
                value = value - 1;
            }
            assert(old_value == 3 * value + r);
            let t = Ternary::from_i32(r);
            assert(ternary::tval(t) == r);
            digits.push(t);
            proof {
                lemma_value_push(old_digits, t);
                let p = pow3(old_digits.len());
                assert(pow3(digits@.len()) == 3 * p);
                lemma_pow3_positive(old_digits.len());
                assert(old_value * p == 3 * value * p + r * p) by (nonlinear_arith)
                    requires
                        old_value == 3 * value + r,
                ;
                assert(3 * value * p == value * (3 * p)) by (nonlinear_arith);
                if value != 0 {
                    assert(2 * abs(value as int) - 1 <= (2 * abs(old_value as int) - 1) / 3);
                    assert(pow3(digits@.len()) * (2 * abs(value as int) - 1) <= 2 * abs(v as int) - 1)
                        by (nonlinear_arith)
                        requires
                            3 * (2 * abs(value as int) - 1) <= 2 * abs(old_value as int) - 1,
                            p * (2 * abs(old_value as int) - 1) <= 2 * abs(v as int) - 1,
                            pow3(digits@.len()) == 3 * p,
                            p >= 1,
                    ;
                }
                assert(p <= 2 * abs(v as int) - 1) by (nonlinear_arith)
                    requires
                        p * (2 * abs(old_value as int) - 1) <= 2 * abs(v as int) - 1,
                        abs(old_value as int) >= 1,
                        p >= 1,
                ;
                if old_digits.len() > 20 {
                    lemma_pow3_monotone(21, old_digits.len());
                    reveal_with_fuel(pow3, 22);
                    assert(pow3(21) == 10460353203);
                }
            }
        }
        BalancedTernary { digits }
    }
    /// Create from digits (least significant first), dropping the most
    /// significant zero digits.
    pub fn from_digits(digits: Vec<Ternary>) -> (r: Self)
        ensures
            trimmed(digits@, r.digits@),
            digits_value(r.digits@) == digits_value(digits@),
    {
        let mut bt = BalancedTernary { digits };
        bt.trim();
        proof {
            lemma_value_trimmed(digits@, bt.digits@);
        }
        bt
    }

    /// Remove the most significant zero digits, keeping at least one digit.
    fn trim(&mut self)
        ensures
            trimmed(old(self).digits@, final(self).digits@),
    {
        let ghost d = self.digits@;
        while self.digits.len() > 1 && self.digits[self.digits.len() - 1] == Ternary::Zero
            invariant
                self.digits@.len() <= d.len(),
                self.digits@ == d.subrange(0, self.digits@.len() as int),
                forall|i: int| self.digits@.len() <= i < d.len() ==> d[i] == Ternary::Zero,
                d.len() >= 1 ==> self.digits@.len() >= 1,
            decreases self.digits@.len(),
        {
            self.digits.pop();
        }
    }

    /// Convert back to i32. The sum is formed in i64; a value outside the
    /// i32 range is truncated to its low 32 bits.
    pub fn to_i32(&self) -> (r: i32)
        requires
            self.digits@.len() <= 39,
        ensures
            r == #[verifier::truncate] (digits_value(self.digits@) as i32),
    {
        let ghost d = self.digits@;
        let mut result: i64 = 0;
        let mut power: i64 = 1;
        let mut i: usize = 0;
        proof {
            lemma_pow3_monotone(d.len(), 39);
            lemma_pow3_39();
            assert(d.take(0) =~= Seq::<Ternary>::empty());
        }
        while i < self.digits.len()
            invariant
                d == self.digits@,
                i <= d.len(),
                d.len() <= 39,
                pow3(d.len()) <= 4052555153018976267,
                result == digits_value(d.take(i as int)),
                power == pow3(i as nat),
            decreases d.len() - i,
        {
            let digit = self.digits[i];
            proof {
                assert(d.take(i + 1) =~= d.take(i as int).push(digit));
                lemma_value_push(d.take(i as int), digit);
                lemma_value_bound(d.take(i + 1));
                lemma_pow3_monotone((i + 1) as nat, d.len());
                lemma_pow3_positive(i as nat);
            }
            let t = digit.to_i32() as i64;
            assert(t * power == ternary::tval(digit) * pow3(i as nat));
            assert(-power <= t * power <= power) by (nonlinear_arith)
                requires
                    -1 <= t <= 1,
                    power >= 0,
            ;
            result = result + t * power;
            power = power * 3;
            i += 1;
        }
        assert(d.take(d.len() as int) =~= d);
        #[verifier::truncate] (result as i32)
    }

    /// Add two balanced ternary numbers digit by digit with carries.
    pub fn add(&self, other: &BalancedTernary) -> (r: BalancedTernary)
        ensures
            digits_value(r.digits@) == digits_value(self.digits@) + digits_value(other.digits@),
            canonical(r.digits@),
    {
        let ghost a = self.digits@;
        let ghost b = other.digits@;
        let la = self.digits.len();
        let lb = other.digits.len();
        let max_len = if la > lb { la } else { lb };
        let mut digits: Vec<Ternary> = Vec::new();
        let mut carry = Ternary::Zero;
        let mut i: usize = 0;
        proof {
            assert(padded(a, 0) =~= Seq::<Ternary>::empty());
            assert(padded(b, 0) =~= Seq::<Ternary>::empty());
            assert(digits@ =~= Seq::<Ternary>::empty());
        }
        while i < max_len
            invariant
                a == self.digits@,
                b == other.digits@,
                la == a.len(),
                lb == b.len(),
                i <= max_len,
                digits@.len() == i,
                digits_value(digits@) + ternary::tval(carry) * pow3(i as nat) == digits_value(
                    padded(a, i as nat),
                ) + digits_value(padded(b, i as nat)),
            decreases max_len - i,
        {
            let x = if i < la { self.digits[i] } else { Ternary::Zero };
            let y = if i < lb { other.digits[i] } else { Ternary::Zero };
            let raw = x.to_i32() + y.to_i32() + carry.to_i32();
            let (digit, new_carry) = match raw {
                -3 => (Ternary::Zero, Ternary::Neg),
                -2 => (Ternary::Pos, Ternary::Neg),
                -1 => (Ternary::Neg, Ternary::Zero),
                0 => (Ternary::Zero, Ternary::Zero),
                1 => (Ternary::Pos, Ternary::Zero),
                2 => (Ternary::Neg, Ternary::Pos),
                _ => (Ternary::Zero, Ternary::Pos),
            };
            proof {
                let p = pow3(i as nat);
                assert(ternary::tval(digit) + 3 * ternary::tval(new_carry) == ternary::tval(x)
                    + ternary::tval(y) + ternary::tval(carry));
                assert(padded(a, (i + 1) as nat) =~= padded(a, i as nat).push(x));
                assert(padded(b, (i + 1) as nat) =~= padded(b, i as nat).push(y));
                lemma_value_push(padded(a, i as nat), x);
                lemma_value_push(padded(b, i as nat), y);
                lemma_value_push(digits@, digit);
                assert((ternary::tval(digit) + 3 * ternary::tval(new_carry)) * p
                    == ternary::tval(digit) * p + ternary::tval(new_carry) * (3 * p))
                    by (nonlinear_arith);
                assert((ternary::tval(x) + ternary::tval(y) + ternary::tval(carry)) * p
                    == ternary::tval(x) * p + ternary::tval(y) * p + ternary::tval(carry) * p)
                    by (nonlinear_arith);
            }
            digits.push(digit);
            carry = new_carry;
            i += 1;
        }
        // The two digits past the longer operand: the last carry, then zero.
        proof {
            lemma_value_padded(a, max_len as nat);
            lemma_value_padded(b, max_len as nat);
            lemma_value_push(digits@, carry);
            lemma_value_push(digits@.push(carry), Ternary::Zero);
        }
        digits.push(carry);
        digits.push(Ternary::Zero);
        BalancedTernary::from_digits(digits)
    }

    /// Negate a balanced ternary number digit by digit.
    pub fn neg(&self) -> (r: BalancedTernary)
        ensures
            r.digits@ == Seq::new(self.digits@.len(), |i: int| ternary::tneg(self.digits@[i])),
            digits_value(r.digits@) == -digits_value(self.digits@),
    {
        let mut out: Vec<Ternary> = Vec::new();
        let mut i: usize = 0;
        while i < self.digits.len()
            invariant
                i <= self.digits@.len(),
                out@ == Seq::new(i as nat, |k: int| ternary::tneg(self.digits@[k])),
            decreases self.digits@.len() - i,
        {
            out.push(self.digits[i].neg());
            i += 1;
            assert(out@ =~= Seq::new(i as nat, |k: int| ternary::tneg(self.digits@[k])));
        }
        proof {
            lemma_value_map_neg(self.digits@);
        }
        BalancedTernary { digits: out }
    }

    /// Subtract two balanced ternary numbers.
    pub fn sub(&self, other: &BalancedTernary) -> (r: BalancedTernary)
        ensures
            digits_value(r.digits@) == digits_value(self.digits@) - digits_value(other.digits@),
            canonical(r.digits@),
    {
        self.add(&other.neg())
    }

    /// Multiply by a single trit, digit by digit.
    pub fn mul_trit(&self, t: Ternary) -> (r: BalancedTernary)
        ensures
            r.digits@ == Seq::new(self.digits@.len(), |i: int| ternary::tmul(self.digits@[i], t)),
            digits_value(r.digits@) == digits_value(self.digits@) * ternary::tval(t),
    {
        let mut out: Vec<Ternary> = Vec::new();
        let mut i: usize = 0;
        while i < self.digits.len()
            invariant
                i <= self.digits@.len(),
                out@ == Seq::new(i as nat, |k: int| ternary::tmul(self.digits@[k], t)),
            decreases self.digits@.len() - i,
        {
            out.push(self.digits[i].mul(t));
            i += 1;
            assert(out@ =~= Seq::new(i as nat, |k: int| ternary::tmul(self.digits@[k], t)));
        }
        proof {
            lemma_value_map_mul(self.digits@, t);
        }
        BalancedTernary { digits: out }
    }

    /// Number of trits.
    pub fn trit_count(&self) -> (r: usize)
        ensures
            r == self.digits@.len(),
    {
        self.digits.len()
    }

    /// Format as a string like "+0-" (most significant first).
    pub fn to_string_msb(&self) -> (r: String)
        ensures
            r@ == msb_text(self.digits@),
    {
        let mut s = String::new();
        if self.digits.len() == 0 {
            s.append("0");
            proof {
                reveal_strlit("0");
            }
            return s;
        }
        let ghost d = self.digits@;
        let n = self.digits.len();
        let mut i: usize = n;
        proof {
            reveal_strlit("-");
            reveal_strlit("0");
            reveal_strlit("+");
        }
        while i > 0
            invariant
                d == self.digits@,
                n == d.len(),
                i <= n,
                s@ == Seq::new((n - i) as nat, |k: int| digit_char(d[n - 1 - k])),
            decreases i,
        {
            i -= 1;
            proof {
                reveal_strlit("-");
                reveal_strlit("0");
                reveal_strlit("+");
            }
            match self.digits[i] {
                Ternary::Neg => s.append("-"),
                Ternary::Zero => s.append("0"),
                Ternary::Pos => s.append("+"),
            }
            assert(s@ =~= Seq::new((n - i) as nat, |k: int| digit_char(d[n - 1 - k])));
        }
        s
    }

    /// The text of the number, most significant digit first.
    pub fn to_string(&self) -> (r: String)
        ensures
            r@ == msb_text(self.digits@),
    {
        self.to_string_msb()
    }
}

} // verus!
