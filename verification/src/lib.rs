//! Deterministic integer cognition kernels.
pub mod cognition;
pub mod geom;
pub mod json;
pub mod text;
