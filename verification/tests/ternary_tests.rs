use ternary_coordination::Ternary;

#[test]
fn test_all_additions() {
    assert_eq!(Ternary::Neg.add(Ternary::Neg), Ternary::Pos);
    assert_eq!(Ternary::Neg.add(Ternary::Zero), Ternary::Neg);
    assert_eq!(Ternary::Neg.add(Ternary::Pos), Ternary::Zero);
    assert_eq!(Ternary::Zero.add(Ternary::Neg), Ternary::Neg);
    assert_eq!(Ternary::Zero.add(Ternary::Zero), Ternary::Zero);
    assert_eq!(Ternary::Zero.add(Ternary::Pos), Ternary::Pos);
    assert_eq!(Ternary::Pos.add(Ternary::Neg), Ternary::Zero);
    assert_eq!(Ternary::Pos.add(Ternary::Zero), Ternary::Pos);
    assert_eq!(Ternary::Pos.add(Ternary::Pos), Ternary::Neg);
}

#[test]
fn test_all_multiplications() {
    assert_eq!(Ternary::Neg.mul(Ternary::Neg), Ternary::Pos);
    assert_eq!(Ternary::Neg.mul(Ternary::Zero), Ternary::Zero);
    assert_eq!(Ternary::Neg.mul(Ternary::Pos), Ternary::Neg);
    assert_eq!(Ternary::Zero.mul(Ternary::Neg), Ternary::Zero);
    assert_eq!(Ternary::Zero.mul(Ternary::Zero), Ternary::Zero);
    assert_eq!(Ternary::Zero.mul(Ternary::Pos), Ternary::Zero);
    assert_eq!(Ternary::Pos.mul(Ternary::Neg), Ternary::Neg);
    assert_eq!(Ternary::Pos.mul(Ternary::Zero), Ternary::Zero);
    assert_eq!(Ternary::Pos.mul(Ternary::Pos), Ternary::Pos);
}

#[test]
fn test_negation_involution() {
    for t in Ternary::all() {
        assert_eq!(t.neg().neg(), t, "negation of negation should be identity for {:?}", t);
    }
}

#[test]
fn test_zero_additive_identity() {
    for t in Ternary::all() {
        assert_eq!(t.add(Ternary::Zero), t);
        assert_eq!(Ternary::Zero.add(t), t);
    }
}

#[test]
fn test_one_multiplicative_identity() {
    for t in Ternary::all() {
        assert_eq!(t.mul(Ternary::Pos), t);
        assert_eq!(Ternary::Pos.mul(t), t);
    }
}

#[test]
fn test_commutativity() {
    for a in Ternary::all() {
        for b in Ternary::all() {
            assert_eq!(a.add(b), b.add(a));
            assert_eq!(a.mul(b), b.mul(a));
        }
    }
}

#[test]
fn test_associativity() {
    for a in Ternary::all() {
        for b in Ternary::all() {
            for c in Ternary::all() {
                assert_eq!(a.add(b).add(c), a.add(b.add(c)));
                assert_eq!(a.mul(b).mul(c), a.mul(b.mul(c)));
            }
        }
    }
}

#[test]
fn test_additive_inverse() {
    for t in Ternary::all() {
        assert_eq!(t.add(t.neg()), Ternary::Zero);
    }
}

#[test]
fn test_multiplicative_inverse() {
    assert_eq!(Ternary::Pos.inv(), Some(Ternary::Pos));
    assert_eq!(Ternary::Neg.inv(), Some(Ternary::Neg));
    assert_eq!(Ternary::Zero.inv(), None);
    for t in Ternary::all() {
        if let Some(inv) = t.inv() {
            assert_eq!(t.mul(inv), Ternary::Pos);
        }
    }
}

#[test]
fn test_from_i32_roundtrip() {
    for t in Ternary::all() {
        assert_eq!(Ternary::from_i32(t.to_i32()), t);
    }
}

#[test]
fn test_distributivity() {
    for a in Ternary::all() {
        for b in Ternary::all() {
            for c in Ternary::all() {
                assert_eq!(a.mul(b.add(c)), a.mul(b).add(a.mul(c)));
            }
        }
    }
}

#[test]
fn test_subtraction() {
    for a in Ternary::all() {
        for b in Ternary::all() {
            assert_eq!(a.sub(b), a.add(b.neg()));
        }
    }
}

#[test]
fn ternary_test_display() {
    assert_eq!(Ternary::Neg.to_string(), "-1");
    assert_eq!(Ternary::Zero.to_string(), "0");
    assert_eq!(Ternary::Pos.to_string(), "+1");
}

#[test]
fn test_from_i32_residues() {
    assert_eq!(Ternary::from_i32(5), Ternary::Neg);
    assert_eq!(Ternary::from_i32(-1), Ternary::Neg);
    assert_eq!(Ternary::from_i32(-2), Ternary::Pos);
    assert_eq!(Ternary::from_i32(3), Ternary::Zero);
    assert_eq!(Ternary::from_i32(-3), Ternary::Zero);
    assert_eq!(Ternary::from_i32(i32::MAX), Ternary::Pos);
    assert_eq!(Ternary::from_i32(i32::MIN), Ternary::Pos);
}

#[test]
fn test_to_i32_values() {
    assert_eq!(Ternary::Neg.to_i32(), -1);
    assert_eq!(Ternary::Zero.to_i32(), 0);
    assert_eq!(Ternary::Pos.to_i32(), 1);
}

#[test]
fn test_characteristic_three_each() {
    for t in Ternary::all() {
        assert_eq!(t.add(t).add(t), Ternary::Zero);
    }
}

#[test]
fn test_no_zero_divisors_pairs() {
    for a in Ternary::all() {
        for b in Ternary::all() {
            assert_eq!(a.mul(b).is_zero(), a.is_zero() || b.is_zero());
        }
    }
}

#[test]
fn test_default_and_all() {
    assert_eq!(Ternary::default(), Ternary::Zero);
    assert_eq!(Ternary::all(), [Ternary::Neg, Ternary::Zero, Ternary::Pos]);
    assert!(Ternary::Zero.is_zero());
    assert!(!Ternary::Pos.is_zero());
}
