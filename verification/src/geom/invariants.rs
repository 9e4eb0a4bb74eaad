//! Closure states of a reasoning frame and the invariant violations that
//! governance checks report.
use vstd::prelude::*;

verus! {

/// How far a frame has been closed.
#[derive(Debug, Clone, Copy, PartialEq, Eq, Structural)]
pub enum ClosureStatus {
    Open,
    Partial,
    Closed,
}

/// One closure attempt: the status before and after, and why.
#[derive(Debug, Clone, PartialEq, Eq)]
pub struct ClosureTransition {
    pub from_status: ClosureStatus,
    pub to_status: ClosureStatus,
    pub resolved_by_last_user_turn: bool,
    pub reasoning_summary: String,
}

/// A violated governance invariant.
#[derive(Debug, Clone, PartialEq, Eq)]
pub enum InvariantViolation {
    Consistency { message: String, contradicting_terms: Vec<String> },
    Auditability { message: String, missing_audit_step: String },
    Determinism { message: String },
}

} // verus!
