//! Geometric vocabulary shared by the cognition kernels: closure states and
//! invariant violations, integer coordinates, and the semantic field.

pub mod field;
pub mod invariants;
pub mod space;
