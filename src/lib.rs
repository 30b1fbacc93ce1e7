//! Secret-santa style assignment: every member of a group gets exactly one
//! other member as recipient, respecting forbidden giver/recipient edges.

pub mod matrix;
pub mod group;
pub mod random;
pub mod laws;

pub use matrix::{Matrix, MatrixError};
pub use group::{AssignError, Constraint, Group};
