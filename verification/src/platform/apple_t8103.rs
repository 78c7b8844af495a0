//! The Apple T8103 (M1).
pub mod rand;
