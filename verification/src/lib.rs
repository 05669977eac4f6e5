//! Coordination algebra over the three-valued field {-1, 0, +1} = Z/3Z:
//! ternary arithmetic, matrices, consensus rounds, ring structure and
//! balanced ternary numerals.

pub mod ternary;

pub use ternary::Ternary;
pub mod algebra;

pub use algebra::TernaryRing;
pub mod balance;

pub use balance::BalancedTernary;
pub mod matrix;

pub use matrix::TernaryMatrix;
pub mod consensus;

pub use consensus::ConsensusState;
pub mod laplace;
pub mod row_space;
pub mod columns;
