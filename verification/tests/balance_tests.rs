use ternary_coordination::{BalancedTernary, Ternary};

#[test]
fn test_zero() {
    let bt = BalancedTernary::from_i32(0);
    assert_eq!(bt.digits, vec![Ternary::Zero]);
}

#[test]
fn test_one() {
    let bt = BalancedTernary::from_i32(1);
    assert_eq!(bt.digits, vec![Ternary::Pos]);
}

#[test]
fn test_neg_one() {
    let bt = BalancedTernary::from_i32(-1);
    assert_eq!(bt.digits, vec![Ternary::Neg]);
}

#[test]
fn test_two() {
    let bt = BalancedTernary::from_i32(2);
    assert_eq!(bt.digits, vec![Ternary::Neg, Ternary::Pos]);
    assert_eq!(bt.to_i32(), 2);
}

#[test]
fn test_three() {
    let bt = BalancedTernary::from_i32(3);
    assert_eq!(bt.digits, vec![Ternary::Zero, Ternary::Pos]);
    assert_eq!(bt.to_i32(), 3);
}

#[test]
fn test_four() {
    let bt = BalancedTernary::from_i32(4);
    assert_eq!(bt.digits, vec![Ternary::Pos, Ternary::Pos]);
    assert_eq!(bt.to_i32(), 4);
}

#[test]
fn test_five() {
    let bt = BalancedTernary::from_i32(5);
    assert_eq!(bt.digits, vec![Ternary::Neg, Ternary::Neg, Ternary::Pos]);
    assert_eq!(bt.to_i32(), 5);
}

#[test]
fn test_negative_two() {
    let bt = BalancedTernary::from_i32(-2);
    assert_eq!(bt.digits, vec![Ternary::Pos, Ternary::Neg]);
    assert_eq!(bt.to_i32(), -2);
}

#[test]
fn test_roundtrip_small() {
    for i in -50i32..=50 {
        let bt = BalancedTernary::from_i32(i);
        assert_eq!(bt.to_i32(), i, "roundtrip failed for {}", i);
    }
}

#[test]
fn test_roundtrip_large() {
    let values = [100, -100, 1000, -1000, 987654, -987654, 715827882, -715827882];
    for &v in &values {
        let bt = BalancedTernary::from_i32(v);
        assert_eq!(bt.to_i32(), v, "roundtrip failed for {}", v);
    }
}

#[test]
fn test_add() {
    let a = BalancedTernary::from_i32(5);
    let b = BalancedTernary::from_i32(-3);
    let sum = a.add(&b);
    assert_eq!(sum.to_i32(), 2);
}

#[test]
fn test_add_various() {
    for a in -20..=20 {
        for b in -20..=20 {
            let ba = BalancedTernary::from_i32(a);
            let bb = BalancedTernary::from_i32(b);
            assert_eq!(ba.add(&bb).to_i32(), a + b, "add failed: {} + {}", a, b);
        }
    }
}

#[test]
fn test_neg() {
    let a = BalancedTernary::from_i32(7);
    let neg_a = a.neg();
    assert_eq!(neg_a.to_i32(), -7);
}

#[test]
fn test_sub() {
    let a = BalancedTernary::from_i32(10);
    let b = BalancedTernary::from_i32(3);
    let diff = a.sub(&b);
    assert_eq!(diff.to_i32(), 7);
}

#[test]
fn test_mul_trit() {
    let a = BalancedTernary::from_i32(5);
    let neg = a.mul_trit(Ternary::Neg);
    assert_eq!(neg.to_i32(), -5);

    let zero = a.mul_trit(Ternary::Zero);
    assert_eq!(zero.to_i32(), 0);
}

#[test]
fn balance_test_display() {
    let one = BalancedTernary::from_i32(1);
    assert_eq!(one.to_string(), "+");

    let two = BalancedTernary::from_i32(2);
    assert_eq!(two.to_string(), "+-");

    let zero = BalancedTernary::from_i32(0);
    assert_eq!(zero.to_string(), "0");
}

#[test]
fn test_add_commutative() {
    let a = BalancedTernary::from_i32(7);
    let b = BalancedTernary::from_i32(-4);
    assert_eq!(a.add(&b).to_i32(), b.add(&a).to_i32());
}

#[test]
fn test_trit_count() {
    assert_eq!(BalancedTernary::from_i32(0).trit_count(), 1);
    assert_eq!(BalancedTernary::from_i32(1).trit_count(), 1);
    assert_eq!(BalancedTernary::from_i32(2).trit_count(), 2);
}

#[test]
fn test_extreme_values_roundtrip() {
    for &v in &[i32::MAX, i32::MIN, i32::MAX - 1, i32::MIN + 1] {
        let bt = BalancedTernary::from_i32(v);
        assert!(bt.trit_count() <= 21);
        assert_eq!(bt.to_i32(), v);
    }
}

#[test]
fn test_to_string_msb_values() {
    assert_eq!(BalancedTernary::from_i32(5).to_string_msb(), "+--");
    assert_eq!(BalancedTernary::from_i32(-2).to_string_msb(), "-+");
    assert_eq!(BalancedTernary::from_i32(14).to_string_msb(), "+---");
    assert_eq!(BalancedTernary { digits: vec![] }.to_string_msb(), "0");
    assert_eq!(BalancedTernary::from_i32(3).to_string_msb(), "+0");
}

#[test]
fn test_from_digits_trims() {
    let bt = BalancedTernary::from_digits(vec![Ternary::Pos, Ternary::Zero, Ternary::Zero]);
    assert_eq!(bt.digits, vec![Ternary::Pos]);
    let z = BalancedTernary::from_digits(vec![Ternary::Zero, Ternary::Zero]);
    assert_eq!(z.digits, vec![Ternary::Zero]);
    let e = BalancedTernary::from_digits(vec![]);
    assert_eq!(e.digits, Vec::<Ternary>::new());
    let keep = BalancedTernary::from_digits(vec![Ternary::Zero, Ternary::Neg]);
    assert_eq!(keep.digits, vec![Ternary::Zero, Ternary::Neg]);
    assert_eq!(keep.to_i32(), -3);
}

#[test]
fn test_zero_constructor() {
    assert_eq!(BalancedTernary::zero().digits, vec![Ternary::Zero]);
    assert_eq!(BalancedTernary::zero().to_i32(), 0);
}

#[test]
fn test_add_result_canonical() {
    let a = BalancedTernary::from_i32(4);
    let b = BalancedTernary::from_i32(-4);
    assert_eq!(a.add(&b).digits, vec![Ternary::Zero]);
    let c = BalancedTernary::from_i32(13).add(&BalancedTernary::from_i32(1));
    assert_eq!(c, BalancedTernary::from_i32(14));
}

#[test]
fn test_neg_keeps_digits_shape() {
    let a = BalancedTernary::from_i32(5);
    assert_eq!(a.neg().digits, vec![Ternary::Pos, Ternary::Pos, Ternary::Neg]);
}

#[test]
fn test_to_i32_truncates_large_values() {
    let bt = BalancedTernary { digits: vec![Ternary::Pos; 21] };
    assert_eq!(bt.to_i32(), 5230176601i64 as i32);
}

#[test]
fn test_canonical_unique_representation() {
    for v in -40..=40 {
        let bt = BalancedTernary::from_i32(v);
        let rebuilt = BalancedTernary::from_digits(bt.digits.clone());
        assert_eq!(rebuilt, bt);
        assert!(bt.digits.len() == 1 || *bt.digits.last().unwrap() != Ternary::Zero);
    }
}
