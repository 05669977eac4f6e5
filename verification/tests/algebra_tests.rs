use ternary_coordination::algebra::{
    AdditiveGroup, MultiplicativeGroup, TernaryGroup, TernaryModule, VectorModule,
};
use ternary_coordination::{Ternary, TernaryRing};

#[test]
fn test_ring_closure() {
    assert!(TernaryRing::verify_closure());
}

#[test]
fn test_ring_add_associativity() {
    assert!(TernaryRing::verify_add_associativity());
}

#[test]
fn test_ring_mul_associativity() {
    assert!(TernaryRing::verify_mul_associativity());
}

#[test]
fn test_ring_commutativity() {
    assert!(TernaryRing::verify_add_commutativity());
    assert!(TernaryRing::verify_mul_commutativity());
}

#[test]
fn test_ring_distributivity() {
    assert!(TernaryRing::verify_distributivity());
}

#[test]
fn test_ring_identities() {
    assert!(TernaryRing::verify_additive_identity());
    assert!(TernaryRing::verify_multiplicative_identity());
}

#[test]
fn test_ring_additive_inverse() {
    assert!(TernaryRing::verify_additive_inverse());
}

#[test]
fn test_all_ring_axioms() {
    let (passed, failures) = TernaryRing::verify_all_axioms();
    assert!(passed, "Ring axiom failures: {:?}", failures);
}

#[test]
fn test_is_field() {
    assert!(TernaryRing::is_field());
    assert!(!TernaryRing::has_zero_divisors());
}

#[test]
fn test_characteristic() {
    assert_eq!(TernaryRing::characteristic(), 3);
    assert!(TernaryRing::verify_characteristic());
}

#[test]
fn test_two_equals_neg_one() {
    assert_eq!(Ternary::Pos.add(Ternary::Pos), Ternary::Neg);
}

#[test]
fn test_additive_group() {
    let e = AdditiveGroup::identity();
    assert_eq!(e, Ternary::Zero);
    assert_eq!(AdditiveGroup::op(&Ternary::Pos, &Ternary::Neg), Ternary::Zero);
    assert_eq!(AdditiveGroup::inv(&Ternary::Pos), Ternary::Neg);
}

#[test]
fn test_multiplicative_group() {
    let e = MultiplicativeGroup::identity();
    assert_eq!(e, Ternary::Pos);
    assert_eq!(MultiplicativeGroup::op(&Ternary::Neg, &Ternary::Neg), Ternary::Pos);
    assert_eq!(MultiplicativeGroup::inv(&Ternary::Neg), Ternary::Neg);
}

#[test]
fn test_vector_module() {
    let zero = VectorModule::zero(3);
    assert_eq!(zero, vec![Ternary::Zero; 3]);

    let a = vec![Ternary::Pos, Ternary::Neg, Ternary::Zero];
    let b = vec![Ternary::Pos, Ternary::Pos, Ternary::Pos];
    let sum = VectorModule::add(&a, &b).unwrap();
    assert_eq!(sum, vec![Ternary::Neg, Ternary::Zero, Ternary::Pos]);

    let scaled = VectorModule::scale(Ternary::Neg, &a);
    assert_eq!(scaled, vec![Ternary::Neg, Ternary::Pos, Ternary::Zero]);
}

#[test]
fn test_vector_module_length_mismatch() {
    let a = vec![Ternary::Pos, Ternary::Neg];
    let b = vec![Ternary::Pos];
    assert_eq!(VectorModule::add(&a, &b), None);
    assert_eq!(VectorModule::zero(0), Vec::<Ternary>::new());
}

#[test]
fn test_ring_operations() {
    assert_eq!(TernaryRing::zero(), Ternary::Zero);
    assert_eq!(TernaryRing::one(), Ternary::Pos);
    assert_eq!(TernaryRing::add(Ternary::Neg, Ternary::Pos), Ternary::Zero);
    assert_eq!(TernaryRing::mul(Ternary::Neg, Ternary::Neg), Ternary::Pos);
    assert_eq!(TernaryRing::neg(Ternary::Neg), Ternary::Pos);
    assert_eq!(TernaryRing::sub(Ternary::Neg, Ternary::Pos), Ternary::Pos);
}

#[test]
fn test_all_axioms_no_failures() {
    let (passed, failures) = TernaryRing::verify_all_axioms();
    assert!(passed);
    assert!(failures.is_empty());
}

#[test]
fn test_group_inverses_cancel() {
    for t in Ternary::all() {
        assert_eq!(AdditiveGroup::op(&t, &AdditiveGroup::inv(&t)), AdditiveGroup::identity());
        if !t.is_zero() {
            let i = MultiplicativeGroup::inv(&t);
            assert_eq!(MultiplicativeGroup::op(&t, &i), MultiplicativeGroup::identity());
        }
    }
}
