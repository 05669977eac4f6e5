use ternary_coordination::{Ternary, TernaryMatrix};

#[test]
fn test_identity_mul() {
    let id = TernaryMatrix::identity(3);
    let a = TernaryMatrix::from_i32_slice(3, 3, &[1, -1, 0, 0, 1, 1, -1, 0, 1]).unwrap();
    assert_eq!(id.mul(&a).unwrap(), a);
    assert_eq!(a.mul(&id).unwrap(), a);
}

#[test]
fn test_matrix_multiply_2x2() {
    let a = TernaryMatrix::from_i32_slice(2, 2, &[1, 1, 0, 1]).unwrap();
    let b = TernaryMatrix::from_i32_slice(2, 2, &[1, 0, -1, 1]).unwrap();
    let c = a.mul(&b).unwrap();
    assert_eq!(c.get(0, 0), Ternary::Zero);
    assert_eq!(c.get(0, 1), Ternary::Pos);
    assert_eq!(c.get(1, 0), Ternary::Neg);
    assert_eq!(c.get(1, 1), Ternary::Pos);
}

#[test]
fn test_transpose() {
    let a = TernaryMatrix::from_i32_slice(2, 3, &[1, -1, 0, 0, 1, 1]).unwrap();
    let t = a.transpose();
    assert_eq!(t.rows, 3);
    assert_eq!(t.cols, 2);
    assert_eq!(t.get(0, 0), Ternary::Pos);
    assert_eq!(t.get(1, 0), Ternary::Neg);
    assert_eq!(t.get(2, 0), Ternary::Zero);
    assert_eq!(t.get(0, 1), Ternary::Zero);
    assert_eq!(t.get(1, 1), Ternary::Pos);
    assert_eq!(t.get(2, 1), Ternary::Pos);
}

#[test]
fn test_double_transpose() {
    let a = TernaryMatrix::from_i32_slice(2, 3, &[1, -1, 0, 0, 1, 1]).unwrap();
    assert_eq!(a.transpose().transpose(), a);
}

#[test]
fn test_determinant_2x2() {
    let m = TernaryMatrix::from_i32_slice(2, 2, &[1, 1, -1, 1]).unwrap();
    assert_eq!(m.determinant(), Some(Ternary::Neg));

    let id2 = TernaryMatrix::identity(2);
    assert_eq!(id2.determinant(), Some(Ternary::Pos));

    let sing = TernaryMatrix::from_i32_slice(2, 2, &[1, 1, 1, -1]).unwrap();
    assert_eq!(sing.determinant(), Some(Ternary::Pos));
}

#[test]
fn test_determinant_3x3() {
    let id3 = TernaryMatrix::identity(3);
    assert_eq!(id3.determinant(), Some(Ternary::Pos));

    let m = TernaryMatrix::from_i32_slice(3, 3, &[1, 1, 1, 1, 0, 1, 0, 1, 0]).unwrap();
    assert_eq!(m.determinant(), Some(Ternary::Zero));
}

#[test]
fn test_inverse_2x2() {
    let m = TernaryMatrix::from_i32_slice(2, 2, &[1, 1, -1, 1]).unwrap();
    let inv = m.inverse().expect("should be invertible");
    let product = m.mul(&inv).unwrap();
    assert_eq!(product, TernaryMatrix::identity(2));
}

#[test]
fn test_inverse_singular() {
    let m = TernaryMatrix::zeros(2, 2);
    assert!(m.inverse().is_none());
}

#[test]
fn test_row_echelon_identity() {
    let id = TernaryMatrix::identity(3);
    let (reduced, rank) = id.row_echelon();
    assert_eq!(rank, 3);
    assert_eq!(reduced, id);
}

#[test]
fn test_row_echelon_reduces() {
    let m = TernaryMatrix::from_i32_slice(2, 2, &[1, 1, 1, 1]).unwrap();
    let (reduced, rank) = m.row_echelon();
    assert_eq!(rank, 1);
    assert_eq!(reduced.get(0, 0), Ternary::Pos);
    assert_eq!(reduced.get(1, 0), Ternary::Zero);
    assert_eq!(reduced.get(1, 1), Ternary::Zero);
}

#[test]
fn test_row_echelon_2x3() {
    let m = TernaryMatrix::from_i32_slice(2, 3, &[1, 0, 1, 1, 0, -1]).unwrap();
    let (reduced, rank) = m.row_echelon();
    assert_eq!(rank, 2);
    assert_eq!(reduced.get(0, 0), Ternary::Pos);
    assert_eq!(reduced.get(1, 2), Ternary::Pos);
}

#[test]
fn test_matrix_add() {
    let a = TernaryMatrix::from_i32_slice(2, 2, &[1, 0, -1, 1]).unwrap();
    let b = TernaryMatrix::from_i32_slice(2, 2, &[1, 1, 1, 0]).unwrap();
    let c = a.add(&b).unwrap();
    assert_eq!(c.get(0, 0), Ternary::Neg);
    assert_eq!(c.get(0, 1), Ternary::Pos);
    assert_eq!(c.get(1, 0), Ternary::Zero);
    assert_eq!(c.get(1, 1), Ternary::Pos);
}

#[test]
fn test_scale() {
    let m = TernaryMatrix::from_i32_slice(2, 2, &[1, -1, 0, 1]).unwrap();
    let s = m.scale(Ternary::Neg);
    assert_eq!(s.get(0, 0), Ternary::Neg);
    assert_eq!(s.get(0, 1), Ternary::Pos);
    assert_eq!(s.get(1, 0), Ternary::Zero);
    assert_eq!(s.get(1, 1), Ternary::Neg);
}

#[test]
fn test_dimension_errors() {
    let a = TernaryMatrix::zeros(2, 3);
    let b = TernaryMatrix::zeros(2, 3);
    assert!(a.mul(&b).is_none());
    assert!(a.add(&TernaryMatrix::zeros(3, 2)).is_none());
    assert!(a.determinant().is_none());
    assert!(a.inverse().is_none());
    assert!(!a.is_square());
    assert!(TernaryMatrix::from_vec(2, 2, vec![Ternary::Pos; 3]).is_none());
    assert!(TernaryMatrix::from_i32_slice(2, 2, &[1, 2, 3]).is_none());
}

#[test]
fn test_readme_matrix_inverse_3x3() {
    let m = TernaryMatrix::from_i32_slice(3, 3, &[1, -1, 0, 0, 1, 1, -1, 0, 1]).unwrap();
    assert_eq!(m.determinant(), Some(Ternary::Neg));
    let inv = m.inverse().unwrap();
    assert_eq!(m.mul(&inv).unwrap(), TernaryMatrix::identity(3));
    let (reduced, rank) = m.row_echelon();
    assert_eq!(rank, 3);
    assert_eq!(reduced, TernaryMatrix::identity(3));
    let t = m.transpose();
    assert_eq!(t.get(0, 2), Ternary::Neg);
}

#[test]
fn test_inverse_3x3_product_is_identity() {
    let m = TernaryMatrix::from_i32_slice(3, 3, &[1, 1, 0, 0, 1, 1, 1, 0, 1]).unwrap();
    assert_eq!(m.determinant(), Some(Ternary::Neg));
    let inv = m.inverse().unwrap();
    assert_eq!(m.mul(&inv).unwrap(), TernaryMatrix::identity(3));
    assert_eq!(inv.mul(&m).unwrap(), TernaryMatrix::identity(3));
}

#[test]
fn test_determinant_4x4_and_empty() {
    let id4 = TernaryMatrix::identity(4);
    assert_eq!(id4.determinant(), Some(Ternary::Pos));
    assert_eq!(TernaryMatrix::zeros(0, 0).determinant(), Some(Ternary::Pos));
    let one = TernaryMatrix::from_i32_slice(1, 1, &[-1]).unwrap();
    assert_eq!(one.determinant(), Some(Ternary::Neg));
    assert_eq!(one.inverse().unwrap().get(0, 0), Ternary::Neg);
}

#[test]
fn test_set_get_and_from_vec() {
    let mut m = TernaryMatrix::from_vec(2, 2, vec![Ternary::Zero; 4]).unwrap();
    m.set(1, 0, Ternary::Neg);
    assert_eq!(m.get(1, 0), Ternary::Neg);
    assert_eq!(m.data, vec![Ternary::Zero, Ternary::Zero, Ternary::Neg, Ternary::Zero]);
    let z = TernaryMatrix::zeros(2, 3);
    assert_eq!(z.data.len(), 6);
}

#[test]
fn test_row_echelon_swaps_and_scales() {
    let m = TernaryMatrix::from_i32_slice(2, 2, &[0, 1, -1, 1]).unwrap();
    let (reduced, rank) = m.row_echelon();
    assert_eq!(rank, 2);
    assert_eq!(reduced, TernaryMatrix::identity(2));
    let z = TernaryMatrix::zeros(2, 2);
    let (rz, rank_z) = z.row_echelon();
    assert_eq!(rank_z, 0);
    assert_eq!(rz, z);
}

#[test]
fn test_transpose_keeps_determinant() {
    let m = TernaryMatrix::from_i32_slice(3, 3, &[1, 1, 1, 0, 1, -1, 1, 0, 0]).unwrap();
    assert_eq!(m.determinant(), Some(Ternary::Pos));
    let t = m.transpose();
    assert_eq!(t.determinant(), m.determinant());
    let inv = m.inverse().unwrap();
    assert_eq!(inv.mul(&m).unwrap(), TernaryMatrix::identity(3));
    let s = TernaryMatrix::from_i32_slice(2, 2, &[1, 1, 1, 1]).unwrap();
    assert_eq!(s.transpose().determinant(), Some(Ternary::Zero));
}

#[test]
fn test_row_echelon_keeps_extra_data() {
    let m = TernaryMatrix { rows: 1, cols: 2, data: vec![Ternary::Neg, Ternary::Pos, Ternary::Zero, Ternary::Neg] };
    let (reduced, rank) = m.row_echelon();
    assert_eq!(rank, 1);
    assert_eq!(reduced.data, vec![Ternary::Pos, Ternary::Neg, Ternary::Zero, Ternary::Neg]);
}
