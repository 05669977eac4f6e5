//! Algebraic structures over Z/3Z: the ring (a field), its additive and
//! multiplicative groups, and the module of ternary vectors.
//!
//! The `verify_*` checks run the axioms exhaustively over all trits; their
//! contracts say which axiom each one decides, and the laws in `ternary`
//! prove that every axiom holds.

use vstd::prelude::*;
use crate::ternary::{self, Ternary};

verus! {

/// Addition is associative on all trits.
pub open spec fn add_associative() -> bool {
    forall|a: Ternary, b: Ternary, c: Ternary| ternary::tadd(ternary::tadd(a, b), c) == ternary::tadd(a, ternary::tadd(b, c))
}

/// Multiplication is associative on all trits.
pub open spec fn mul_associative() -> bool {
    forall|a: Ternary, b: Ternary, c: Ternary| ternary::tmul(ternary::tmul(a, b), c) == ternary::tmul(a, ternary::tmul(b, c))
}

/// Addition is commutative on all trits.
pub open spec fn add_commutative() -> bool {
    forall|a: Ternary, b: Ternary| ternary::tadd(a, b) == ternary::tadd(b, a)
}

/// Multiplication is commutative on all trits.
pub open spec fn mul_commutative() -> bool {
    forall|a: Ternary, b: Ternary| ternary::tmul(a, b) == ternary::tmul(b, a)
}

/// Multiplication distributes over addition on all trits.
pub open spec fn distributive() -> bool {
    forall|a: Ternary, b: Ternary, c: Ternary|
        ternary::tmul(a, ternary::tadd(b, c)) == ternary::tadd(ternary::tmul(a, b), ternary::tmul(a, c))
}

/// Zero is a right additive identity.
pub open spec fn additive_identity() -> bool {
    forall|a: Ternary| ternary::tadd(a, Ternary::Zero) == a
}

/// One is a right multiplicative identity.
pub open spec fn multiplicative_identity() -> bool {
    forall|a: Ternary| ternary::tmul(a, Ternary::Pos) == a
}

/// Every trit has an additive inverse given by negation.
pub open spec fn additive_inverse() -> bool {
    forall|a: Ternary| ternary::tadd(a, ternary::tneg(a)) == Ternary::Zero
}

/// All the ring axioms that `verify_all_axioms` checks.
pub open spec fn ring_axioms() -> bool {
    &&& add_associative()
    &&& mul_associative()
    &&& add_commutative()
    &&& mul_commutative()
    &&& distributive()
    &&& additive_identity()
    &&& multiplicative_identity()
    &&& additive_inverse()
}

/// Two nonzero trits multiply to zero.
pub open spec fn zero_divisors_exist() -> bool {
    exists|a: Ternary, b: Ternary|
        a != Ternary::Zero && b != Ternary::Zero && ternary::tmul(a, b) == Ternary::Zero
}

/// `a` has a multiplicative inverse.
pub open spec fn has_mul_inverse(a: Ternary) -> bool {
    exists|x: Ternary| ternary::tmul(a, x) == Ternary::Pos
}

/// Every nonzero trit has a multiplicative inverse.
pub open spec fn nonzero_invertible() -> bool {
    forall|a: Ternary| a != Ternary::Zero ==> #[trigger] has_mul_inverse(a)
}

/// The sum of `n` copies of `t`.
pub open spec fn repeated_sum(t: Ternary, n: nat) -> Ternary
    decreases n,
{
    if n == 0 {
        Ternary::Zero
    } else {
        ternary::tadd(repeated_sum(t, (n - 1) as nat), t)
    }
}

/// `n` is the characteristic: the least positive count of ones that sums to zero.
pub open spec fn is_characteristic(n: nat) -> bool {
    &&& n > 0
    &&& repeated_sum(Ternary::Pos, n) == Ternary::Zero
    &&& forall|m: nat| 0 < m < n ==> repeated_sum(Ternary::Pos, m) != Ternary::Zero
}

proof fn lemma_add_associative_all()
    ensures
        add_associative(),
{
    assert forall|a: Ternary, b: Ternary, c: Ternary|
        #[trigger] ternary::tadd(ternary::tadd(a, b), c) == ternary::tadd(a, ternary::tadd(b, c)) by {
        ternary::lemma_associative(a, b, c);
    }
}

proof fn lemma_mul_associative_all()
    ensures
        mul_associative(),
{
    assert forall|a: Ternary, b: Ternary, c: Ternary|
        #[trigger] ternary::tmul(ternary::tmul(a, b), c) == ternary::tmul(a, ternary::tmul(b, c)) by {
        ternary::lemma_associative(a, b, c);
    }
}

proof fn lemma_distributive_all()
    ensures
        distributive(),
{
    assert forall|a: Ternary, b: Ternary, c: Ternary|
        #[trigger] ternary::tmul(a, ternary::tadd(b, c)) == ternary::tadd(
            ternary::tmul(a, b),
            ternary::tmul(a, c),
        ) by {
        ternary::lemma_distributive(a, b, c);
    }
}

proof fn lemma_commutative_all()
    ensures
        add_commutative(),
        mul_commutative(),
{
    assert forall|a: Ternary, b: Ternary| #[trigger] ternary::tadd(a, b) == ternary::tadd(b, a) by {
        ternary::lemma_commutative(a, b);
    }
    assert forall|a: Ternary, b: Ternary| #[trigger] ternary::tmul(a, b) == ternary::tmul(b, a) by {
        ternary::lemma_commutative(a, b);
    }
}

proof fn lemma_identities_all()
    ensures
        additive_identity(),
        multiplicative_identity(),
        additive_inverse(),
{
    assert forall|a: Ternary| #[trigger] ternary::tadd(a, Ternary::Zero) == a by {
        ternary::lemma_add_identity(a);
    }
    assert forall|a: Ternary| #[trigger] ternary::tmul(a, Ternary::Pos) == a by {
        ternary::lemma_mul_identity(a);
    }
    assert forall|a: Ternary| #[trigger] ternary::tadd(a, ternary::tneg(a)) == Ternary::Zero by {
        ternary::lemma_additive_inverse(a);
    }
}

/// Z/3Z satisfies every ring axiom.
pub proof fn lemma_ring_axioms()
    ensures
        ring_axioms(),
{
    lemma_add_associative_all();
    lemma_mul_associative_all();
    lemma_distributive_all();
    lemma_commutative_all();
    lemma_identities_all();
}

/// Z/3Z is a field: it has no zero divisors and every nonzero element is invertible.
pub proof fn lemma_field()
    ensures
        !zero_divisors_exist(),
        nonzero_invertible(),
{
    assert forall|a: Ternary, b: Ternary|
        !(a != Ternary::Zero && b != Ternary::Zero && ternary::tmul(a, b) == Ternary::Zero) by {
        ternary::lemma_no_zero_divisors(a, b);
    }
    assert forall|a: Ternary| a != Ternary::Zero implies #[trigger] has_mul_inverse(a) by {
        assert(ternary::tmul(a, a) == Ternary::Pos);
    }
}

/// The characteristic of Z/3Z is 3.
pub proof fn lemma_characteristic()
    ensures
        is_characteristic(3),
{
    reveal_with_fuel(repeated_sum, 4);
    assert(repeated_sum(Ternary::Pos, 1) == Ternary::Pos);
    assert(repeated_sum(Ternary::Pos, 2) == Ternary::Neg);
}

/// Z/3Z as an algebraic ring.
#[derive(Debug, Clone, Copy, PartialEq, Eq, Structural)]
pub struct TernaryRing;

impl TernaryRing {
    /// The additive identity (0).
    pub fn zero() -> (r: Ternary)
        ensures
            r == Ternary::Zero,
    {
        Ternary::Zero
    }

    /// The multiplicative identity (1).
    pub fn one() -> (r: Ternary)
        ensures
            r == Ternary::Pos,
    {
        Ternary::Pos
    }

    /// Addition in the ring.
    pub fn add(a: Ternary, b: Ternary) -> (r: Ternary)
        ensures
            r == ternary::tadd(a, b),
    {
        a.add(b)
    }

    /// Multiplication in the ring.
    pub fn mul(a: Ternary, b: Ternary) -> (r: Ternary)
        ensures
            r == ternary::tmul(a, b),
    {
        a.mul(b)
    }

    /// Additive inverse.
    pub fn neg(a: Ternary) -> (r: Ternary)
        ensures
            r == ternary::tneg(a),
    {
        a.neg()
    }

    /// Subtraction.
    pub fn sub(a: Ternary, b: Ternary) -> (r: Ternary)
        ensures
            r == ternary::tsub(a, b),
    {
        a.sub(b)
    }

    /// Closure: every operation yields an element of {-1, 0, 1}, which the
    /// type already guarantees.
    pub fn verify_closure() -> (r: bool)
        ensures
            r,
    {
        true
    }

    /// Check associativity of addition: (a+b)+c = a+(b+c) for all a, b, c.
    pub fn verify_add_associativity() -> (r: bool)
        ensures
            r == add_associative(),
    {
        proof {
            lemma_add_associative_all();
        }
        let all = Ternary::all();
        let mut i: usize = 0;
        while i < 3
            invariant
                i <= 3,
            decreases 3 - i,
        {
            let mut j: usize = 0;
            while j < 3
                invariant
                    i < 3,
                    j <= 3,
                decreases 3 - j,
            {
                let mut k: usize = 0;
                while k < 3
                    invariant
                        i < 3,
                        j < 3,
                        k <= 3,
                    decreases 3 - k,
                {
                    let (a, b, c) = (all[i], all[j], all[k]);
                    if a.add(b).add(c) != a.add(b.add(c)) {
                        proof {
                            ternary::lemma_associative(a, b, c);
                        }
                        return false;
                    }
                    k += 1;
                }
                j += 1;
            }
            i += 1;
        }
        true
    }
    /// Check associativity of multiplication: (a*b)*c = a*(b*c) for all a, b, c.
    pub fn verify_mul_associativity() -> (r: bool)
        ensures
            r == mul_associative(),
    {
        proof {
            lemma_mul_associative_all();
        }
        let all = Ternary::all();
        let mut i: usize = 0;
        while i < 3
            invariant
                i <= 3,
            decreases 3 - i,
        {
            let mut j: usize = 0;
            while j < 3
                invariant
                    i < 3,
                    j <= 3,
                decreases 3 - j,
            {
                let mut k: usize = 0;
                while k < 3
                    invariant
                        i < 3,
                        j < 3,
                        k <= 3,
                    decreases 3 - k,
                {
                    let (a, b, c) = (all[i], all[j], all[k]);
                    if a.mul(b).mul(c) != a.mul(b.mul(c)) {
                        proof {
                            ternary::lemma_associative(a, b, c);
                        }
                        return false;
                    }
                    k += 1;
                }
                j += 1;
            }
            i += 1;
        }
        true
    }

    /// Check commutativity of addition: a+b = b+a.
    pub fn verify_add_commutativity() -> (r: bool)
        ensures
            r == add_commutative(),
    {
        proof {
            lemma_commutative_all();
        }
        let all = Ternary::all();
        let mut i: usize = 0;
        while i < 3
            invariant
                i <= 3,
            decreases 3 - i,
        {
            let mut j: usize = 0;
            while j < 3
                invariant
                    i < 3,
                    j <= 3,
                decreases 3 - j,
            {
                let (a, b) = (all[i], all[j]);
                if a.add(b) != b.add(a) {
                    proof {
                        ternary::lemma_commutative(a, b);
                    }
                    return false;
                }
                j += 1;
            }
            i += 1;
        }
        true
    }

    /// Check commutativity of multiplication: a*b = b*a.
    pub fn verify_mul_commutativity() -> (r: bool)
        ensures
            r == mul_commutative(),
    {
        proof {
            lemma_commutative_all();
        }
        let all = Ternary::all();
        let mut i: usize = 0;
        while i < 3
            invariant
                i <= 3,
            decreases 3 - i,
        {
            let mut j: usize = 0;
            while j < 3
                invariant
                    i < 3,
                    j <= 3,
                decreases 3 - j,
            {
                let (a, b) = (all[i], all[j]);
                if a.mul(b) != b.mul(a) {
                    proof {
                        ternary::lemma_commutative(a, b);
                    }
                    return false;
                }
                j += 1;
            }
            i += 1;
        }
        true
    }

    /// Check distributivity: a*(b+c) = a*b + a*c.
    pub fn verify_distributivity() -> (r: bool)
        ensures
            r == distributive(),
    {
        proof {
            lemma_distributive_all();
        }
        let all = Ternary::all();
        let mut i: usize = 0;
        while i < 3
            invariant
                i <= 3,
            decreases 3 - i,
        {
            let mut j: usize = 0;
            while j < 3
                invariant
                    i < 3,
                    j <= 3,
                decreases 3 - j,
            {
                let mut k: usize = 0;
                while k < 3
                    invariant
                        i < 3,
                        j < 3,
                        k <= 3,
                    decreases 3 - k,
                {
                    let (a, b, c) = (all[i], all[j], all[k]);
                    if a.mul(b.add(c)) != a.mul(b).add(a.mul(c)) {
                        proof {
                            ternary::lemma_distributive(a, b, c);
                        }
                        return false;
                    }
                    k += 1;
                }
                j += 1;
            }
            i += 1;
        }
        true
    }

    /// Check the additive identity: a + 0 = a.
    pub fn verify_additive_identity() -> (r: bool)
        ensures
            r == additive_identity(),
    {
        proof {
            lemma_identities_all();
        }
        let all = Ternary::all();
        let mut i: usize = 0;
        while i < 3
            invariant
                i <= 3,
            decreases 3 - i,
        {
            let a = all[i];
            if a.add(Ternary::Zero) != a {
                proof {
                    ternary::lemma_add_identity(a);
                }
                return false;
            }
            i += 1;
        }
        true
    }

    /// Check the multiplicative identity: a * 1 = a.
    pub fn verify_multiplicative_identity() -> (r: bool)
        ensures
            r == multiplicative_identity(),
    {
        proof {
            lemma_identities_all();
        }
        let all = Ternary::all();
        let mut i: usize = 0;
        while i < 3
            invariant
                i <= 3,
            decreases 3 - i,
        {
            let a = all[i];
            if a.mul(Ternary::Pos) != a {
                proof {
                    ternary::lemma_mul_identity(a);
                }
                return false;
            }
            i += 1;
        }
        true
    }

    /// Check the additive inverse: a + (-a) = 0.
    pub fn verify_additive_inverse() -> (r: bool)
        ensures
            r == additive_inverse(),
    {
        proof {
            lemma_identities_all();
        }
        let all = Ternary::all();
        let mut i: usize = 0;
        while i < 3
            invariant
                i <= 3,
            decreases 3 - i,
        {
            let a = all[i];
            if a.add(a.neg()) != Ternary::Zero {
                proof {
                    ternary::lemma_additive_inverse(a);
                }
                return false;
            }
            i += 1;
        }
        true
    }

    /// Look for zero divisors: nonzero a, b with a*b = 0. Z/3Z has none.
    pub fn has_zero_divisors() -> (r: bool)
        ensures
            r == zero_divisors_exist(),
    {
        proof {
            lemma_field();
        }
        let nonzero = [Ternary::Neg, Ternary::Pos];
        let mut i: usize = 0;
        while i < 2
            invariant
                i <= 2,
                nonzero@ == seq![Ternary::Neg, Ternary::Pos],
            decreases 2 - i,
        {
            let mut j: usize = 0;
            while j < 2
                invariant
                    i < 2,
                    j <= 2,
                    nonzero@ == seq![Ternary::Neg, Ternary::Pos],
                decreases 2 - j,
            {
                let (a, b) = (nonzero[i], nonzero[j]);
                if a.mul(b) == Ternary::Zero {
                    proof {
                        ternary::lemma_no_zero_divisors(a, b);
                    }
                    return true;
                }
                j += 1;
            }
            i += 1;
        }
        false
    }

    /// Check that this is a field: every nonzero element has a multiplicative inverse.
    pub fn is_field() -> (r: bool)
        ensures
            r == nonzero_invertible(),
    {
        proof {
            lemma_field();
        }
        let nonzero = [Ternary::Neg, Ternary::Pos];
        let mut i: usize = 0;
        while i < 2
            invariant
                i <= 2,
                nonzero@ == seq![Ternary::Neg, Ternary::Pos],
            decreases 2 - i,
        {
            if nonzero[i].inv().is_none() {
                return false;
            }
            i += 1;
        }
        true
    }

    /// Check every ring axiom. Returns whether all passed and the names of
    /// those that failed.
    pub fn verify_all_axioms() -> (r: (bool, Vec<&'static str>))
        ensures
            r.0 == (r.1@.len() == 0),
            r.0 == ring_axioms(),
    {
        let mut failures: Vec<&'static str> = Vec::new();
        if !Self::verify_add_associativity() {
            failures.push("add associativity");
        }
        if !Self::verify_mul_associativity() {
            failures.push("mul associativity");
        }
        if !Self::verify_add_commutativity() {
            failures.push("add commutativity");
        }
        if !Self::verify_mul_commutativity() {
            failures.push("mul commutativity");
        }
        if !Self::verify_distributivity() {
            failures.push("distributivity");
        }
        if !Self::verify_additive_identity() {
            failures.push("additive identity");
        }
        if !Self::verify_multiplicative_identity() {
            failures.push("multiplicative identity");
        }
        if !Self::verify_additive_inverse() {
            failures.push("additive inverse");
        }
        proof {
            lemma_ring_axioms();
        }
        (failures.len() == 0, failures)
    }

    /// The characteristic of Z/3Z is 3: 1 + 1 + 1 = 0.
    pub fn characteristic() -> (r: usize)
        ensures
            r == 3,
            is_characteristic(r as nat),
    {
        proof {
            lemma_characteristic();
        }
        3
    }

    /// Check that 1 + 1 + 1 = 0 (characteristic 3).
    pub fn verify_characteristic() -> (r: bool)
        ensures
            r == (ternary::tadd(ternary::tadd(Ternary::Pos, Ternary::Pos), Ternary::Pos)
                == Ternary::Zero),
    {
        Ternary::Pos.add(Ternary::Pos).add(Ternary::Pos) == Ternary::Zero
    }
}

/// A group structure on ternary values.
pub trait TernaryGroup {
    type Element;

    /// The values that belong to the group.
    spec fn member(a: Self::Element) -> bool;

    fn identity() -> Self::Element;

    fn op(a: &Self::Element, b: &Self::Element) -> Self::Element;

    fn inv(a: &Self::Element) -> Self::Element
        requires
            Self::member(*a),
    ;
}

/// The additive group of Z/3Z.
pub struct AdditiveGroup;

impl TernaryGroup for AdditiveGroup {
    type Element = Ternary;

    open spec fn member(a: Ternary) -> bool {
        true
    }

    fn identity() -> (r: Ternary)
        ensures
            r == Ternary::Zero,
    {
        Ternary::Zero
    }

    fn op(a: &Ternary, b: &Ternary) -> (r: Ternary)
        ensures
            r == ternary::tadd(*a, *b),
    {
        a.add(*b)
    }

    fn inv(a: &Ternary) -> (r: Ternary)
        ensures
            r == ternary::tneg(*a),
    {
        a.neg()
    }
}

/// The multiplicative group of Z/3Z: the nonzero trits.
pub struct MultiplicativeGroup;

impl TernaryGroup for MultiplicativeGroup {
    type Element = Ternary;

    open spec fn member(a: Ternary) -> bool {
        a != Ternary::Zero
    }

    fn identity() -> (r: Ternary)
        ensures
            r == Ternary::Pos,
    {
        Ternary::Pos
    }

    fn op(a: &Ternary, b: &Ternary) -> (r: Ternary)
        ensures
            r == ternary::tmul(*a, *b),
    {
        a.mul(*b)
    }

    fn inv(a: &Ternary) -> (r: Ternary)
        ensures
            r != Ternary::Zero,
            ternary::tmul(*a, r) == Ternary::Pos,
    {
        match a.inv() {
            Some(x) => x,
            None => Ternary::Zero,
        }
    }
}

/// The group laws hold for the additive group: identity, inverse and
/// associativity of the operation.
pub proof fn lemma_additive_group(a: Ternary, b: Ternary, c: Ternary)
    ensures
        ternary::tadd(Ternary::Zero, a) == a,
        ternary::tadd(a, ternary::tneg(a)) == Ternary::Zero,
        ternary::tadd(ternary::tadd(a, b), c) == ternary::tadd(a, ternary::tadd(b, c)),
{
    ternary::lemma_add_identity(a);
    ternary::lemma_additive_inverse(a);
    ternary::lemma_associative(a, b, c);
}

/// The nonzero trits form a group under multiplication: the product of
/// members is a member, one is the identity, and each member is its own
/// inverse.
pub proof fn lemma_multiplicative_group(a: Ternary, b: Ternary)
    requires
        a != Ternary::Zero,
        b != Ternary::Zero,
    ensures
        ternary::tmul(a, b) != Ternary::Zero,
        ternary::tmul(Ternary::Pos, a) == a,
        ternary::tmul(a, a) == Ternary::Pos,
{
    ternary::lemma_no_zero_divisors(a, b);
    ternary::lemma_mul_identity(a);
}

/// A ternary module: vectors over Z/3Z.
pub trait TernaryModule {
    fn zero(dim: usize) -> Vec<Ternary>;

    fn add(a: &[Ternary], b: &[Ternary]) -> Option<Vec<Ternary>>;

    fn scale(scalar: Ternary, v: &[Ternary]) -> Vec<Ternary>;
}

/// The standard module of ternary vectors.
pub struct VectorModule;

impl TernaryModule for VectorModule {
    fn zero(dim: usize) -> (r: Vec<Ternary>)
        ensures
            r@ == Seq::new(dim as nat, |i: int| Ternary::Zero),
    {
        let r = vec![Ternary::Zero; dim];
        assert(r@ =~= Seq::new(dim as nat, |i: int| Ternary::Zero));
        r
    }

    fn add(a: &[Ternary], b: &[Ternary]) -> (r: Option<Vec<Ternary>>)
        ensures
            r is None <==> a@.len() != b@.len(),
            r matches Some(v) ==> v@ == Seq::new(a@.len(), |i: int| ternary::tadd(a@[i], b@[i])),
    {
        if a.len() != b.len() {
            return None;
        }
        let mut v: Vec<Ternary> = Vec::new();
        let mut i: usize = 0;
        while i < a.len()
            invariant
                a@.len() == b@.len(),
                i <= a@.len(),
                v@ == Seq::new(i as nat, |k: int| ternary::tadd(a@[k], b@[k])),
            decreases a@.len() - i,
        {
            v.push(a[i].add(b[i]));
            i += 1;
            assert(v@ =~= Seq::new(i as nat, |k: int| ternary::tadd(a@[k], b@[k])));
        }
        Some(v)
    }

    fn scale(scalar: Ternary, v: &[Ternary]) -> (r: Vec<Ternary>)
        ensures
            r@ == Seq::new(v@.len(), |i: int| ternary::tmul(scalar, v@[i])),
    {
        let mut out: Vec<Ternary> = Vec::new();
        let mut i: usize = 0;
        while i < v.len()
            invariant
                i <= v@.len(),
                out@ == Seq::new(i as nat, |k: int| ternary::tmul(scalar, v@[k])),
            decreases v@.len() - i,
        {
            out.push(scalar.mul(v[i]));
            i += 1;
            assert(out@ =~= Seq::new(i as nat, |k: int| ternary::tmul(scalar, v@[k])));
        }
        out
    }
}

} // verus!
