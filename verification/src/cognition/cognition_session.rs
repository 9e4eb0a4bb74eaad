//! Cognition sessions: structured plans are normalised, run through the
//! qubit pipeline (kernel, algebra, binding, trajectory, measurement,
//! resonance inference), arbitrated against each other and the winner is
//! self-corrected.
use vstd::prelude::*;
use crate::cognition::phase13_qubit_kernel::{
    phase13_build_qubit_state, state_sig, Phase13QubitState, Phase13QubitUnaryOp,
};
use crate::cognition::phase14_operator_algebra::{
    is_commutator, is_pauli_family, is_table_of, op_name, phase14_build_commutation_table,
    phase14_build_pauli_family, phase14_compute_commutator, Phase14CommutationTable,
    Phase14Commutator, Phase14OperatorFamily,
};
use crate::cognition::phase15_two_qubit_semantic_binding::{
    initial_model, is_binding_of, lemma_binding_of_is_valid, model_of,
    phase15_build_two_qubit_state, two_op_name, two_state_error, valid_two_state,
    Phase15TwoQubitOp, Phase15TwoQubitState,
};
use crate::cognition::phase16_thought_path_trajectories::{
    is_trajectory_of, lemma_trajectory_is_governed, op_kinds, phase16_apply_thought_op,
    phase16_build_single_qubit_op, phase16_build_two_qubit_op, phase16_trace_thought_path,
    target_name, thought_step, thought_steps, Phase16QubitTarget, Phase16ThoughtOp,
    Phase16ThoughtOpKind, Phase16ThoughtTrajectory, Phase16TrajectoryKind,
};
use crate::cognition::phase17_semantic_measurement_operators::{
    digests, is_binding_measurement, is_state_measurement, is_trajectory_measurement,
    phase17_compose_semantic_digest, phase17_compose_semantic_signature, phase17_measure_binding,
    phase17_measure_semantic, phase17_measure_trajectory, semantic_sigs,
    Phase17SemanticLabel, Phase17SemanticMeasurement,
};
use crate::cognition::phase18_resonance_inference::{
    inference_error, is_field_of, is_inference_of, lemma_inference_is_governed,
    phase18_build_resonance_field, phase18_infer_trajectory, Phase18InferenceTrajectory,
    Phase18ResonanceField,
};
use crate::cognition::phase19_arbitration_operators::{
    candidate_id, decision_error, first_bad_inference, is_resolution_of,
    phase19_resolve_inference_conflict, Phase19ArbitrationDecision, Phase19ArbitrationField,
    Phase19MetaOperator,
};
use crate::cognition::phase20_self_correction_operators::{
    correction_line, is_drift_report_of, is_plan_of, is_stabilized_of,
    phase20_apply_self_correction, phase20_build_correction_plan,
    phase20_correction_telemetry_line, phase20_detect_drift,
    phase20_stabilization_telemetry_line, stabilization_line, Phase20CorrectionPlan,
    Phase20DriftReport, Phase20StabilizedInference,
};
use crate::text::{collapse_whitespace, contains_text, dec_nat, default_hash_str, has_sub, hash16,
    hash_text, join, join_strings, parse_usize, parse_usize_text, push_str, push_u64_pad2,
    squeeze, std_hash_of_str, std_lowercase, strip_prefix_text, text, to_lowercase_text,
    trim_text, trim_ws, views, zero_pad};

verus! {

/// A goal with the steps meant to reach it.
#[derive(Debug, Clone, PartialEq, Eq)]
pub struct CognitionPlan {
    pub goal: String,
    pub steps: Vec<String>,
}

/// What the pipeline recorded for one plan.
#[derive(Debug, Clone, PartialEq, Eq)]
pub struct CognitionPlanTrace {
    pub plan_id: String,
    pub plan_signature: String,
    pub goal_signature: String,
    pub step_signature: String,
    pub initial_q1_signature: String,
    pub initial_q2_signature: String,
    pub phase14_commutation_signature: String,
    pub phase14_commutator: Phase14Commutator,
    pub phase15_initial_binding_signature: String,
    pub phase16_trajectory_signature: String,
    pub phase16_trajectory_kind: Phase16TrajectoryKind,
    pub phase17_semantic_signature: String,
    pub phase17_semantic_digest: String,
    pub phase17_trajectory_label: Phase17SemanticLabel,
    pub phase18_resonance_signature: String,
    pub phase18_inference_signature: String,
    pub phase18_final_label: Phase17SemanticLabel,
}

#[derive(Debug, Clone, PartialEq, Eq)]
pub struct CognitionSessionResult {
    pub winner_plan_id: String,
    pub winner_plan_signature: String,
    pub semantic_label: Phase17SemanticLabel,
    pub arbitration_signature: String,
    pub correction_signature: String,
    pub stabilization_signature: String,
    pub trajectory_kind: Phase16TrajectoryKind,
    pub telemetry_digest: String,
    pub arbitration_decision_signature: String,
    pub plan_traces: Vec<CognitionPlanTrace>,
    pub arbitration_field: Phase19ArbitrationField,
    pub arbitration_decision: Phase19ArbitrationDecision,
    pub drift_report: Phase20DriftReport,
    pub correction_plan: Phase20CorrectionPlan,
    pub stabilized_inference: Phase20StabilizedInference,
}

#[derive(Debug, Clone, PartialEq, Eq)]
pub struct CognitionTournamentResult {
    pub winner_plan_id: String,
    pub winner_plan_signature: String,
    pub semantic_label: Phase17SemanticLabel,
    pub arbitration_signature: String,
    pub correction_signature: String,
    pub stabilization_signature: String,
    pub trajectory_kind: Phase16TrajectoryKind,
    pub telemetry_digest: String,
    pub arbitration_decision_signature: String,
    pub candidate_count: usize,
    pub plan_traces: Vec<CognitionPlanTrace>,
    pub arbitration_field: Phase19ArbitrationField,
    pub arbitration_decision: Phase19ArbitrationDecision,
    pub drift_report: Phase20DriftReport,
    pub correction_plan: Phase20CorrectionPlan,
    pub stabilized_inference: Phase20StabilizedInference,
}

/// One plan's trace together with its inference.
#[derive(Debug, Clone)]
pub struct PlanPipelineOutput {
    pub trace: CognitionPlanTrace,
    pub inference: Phase18InferenceTrajectory,
}

/// The arbitration winner, corrected and stabilized.
#[derive(Debug, Clone)]
pub struct FinalizedCognitiveDecision {
    pub winner_plan_id: String,
    pub winner_plan_signature: String,
    pub semantic_label: Phase17SemanticLabel,
    pub arbitration_signature: String,
    pub correction_signature: String,
    pub stabilization_signature: String,
    pub trajectory_kind: Phase16TrajectoryKind,
    pub telemetry_digest: String,
    pub arbitration_decision_signature: String,
    pub plan_traces: Vec<CognitionPlanTrace>,
    pub arbitration_field: Phase19ArbitrationField,
    pub arbitration_decision: Phase19ArbitrationDecision,
    pub drift_report: Phase20DriftReport,
    pub correction_plan: Phase20CorrectionPlan,
    pub stabilized_inference: Phase20StabilizedInference,
}

/// The most steps a plan may have: step indices and correction deltas are
/// `i32` values, and this keeps them clear of overflow.
pub const MAX_PLAN_STEPS: usize = 0x7fff_0000;

// ── plan text ────────────────────────────────────────────────────────────────

/// A text trimmed, lower-cased and with its words joined by single spaces
/// (nothing for a blank text, whose lower-case form is empty).
pub open spec fn norm_text(s: Seq<char>) -> Seq<char> {
    if trim_ws(s).len() == 0 {
        Seq::empty()
    } else {
        squeeze(std_lowercase(trim_ws(s)), false, false)
    }
}

pub open spec fn norm_steps(steps: Seq<String>) -> Seq<Seq<char>> {
    steps.map_values(|s: String| norm_text(s@))
}

/// The first step, from `i` on, that normalises to nothing.
pub open spec fn first_empty_step(steps: Seq<String>, i: int) -> Option<int>
    decreases steps.len() - i,
{
    if i < 0 || i >= steps.len() {
        None
    } else if norm_text(steps[i]@).len() == 0 {
        Some(i)
    } else {
        first_empty_step(steps, i + 1)
    }
}

/// The verdict of `validate_plan`.
pub open spec fn plan_error(p: CognitionPlan) -> Option<Seq<char>> {
    if norm_text(p.goal@).len() == 0 {
        Some("cognition_plan_goal_empty"@)
    } else if p.steps@.len() == 0 {
        Some("cognition_plan_steps_empty"@)
    } else {
        match first_empty_step(p.steps@, 0) {
            Some(i) => Some("cognition_plan_step_empty:"@ + dec_nat(i as nat)),
            None => None,
        }
    }
}

pub open spec fn goal_signature(p: CognitionPlan) -> Seq<char> {
    hash16("goal="@ + norm_text(p.goal@))
}

pub open spec fn step_signature(p: CognitionPlan) -> Seq<char> {
    hash16(join(norm_steps(p.steps@), "|"@))
}

pub open spec fn plan_signature(p: CognitionPlan) -> Seq<char> {
    hash16("goal="@ + goal_signature(p) + "|steps="@ + step_signature(p))
}

/// The six axis-aligned Bloch vectors, in a fixed order.
pub open spec fn basis(i: int) -> (int, int, int) {
    if i == 0 {
        (1, 0, 0)
    } else if i == 1 {
        (-1, 0, 0)
    } else if i == 2 {
        (0, 1, 0)
    } else if i == 3 {
        (0, -1, 0)
    } else if i == 4 {
        (0, 0, 1)
    } else {
        (0, 0, -1)
    }
}

/// The basis vector that a seed text selects.
pub open spec fn seed_basis(seed: Seq<char>) -> (int, int, int) {
    basis((std_hash_of_str(seed) % 6) as int)
}

/// The thought operation kind that a normalised step calls for: turning
/// swaps, moving forward entangles by controlled-X, aligning by controlled-Z,
/// and any other step is placed by its hash.
pub open spec fn step_kind(n: Seq<char>) -> Phase16ThoughtOpKind {
    if has_sub(n, "turn"@) {
        Phase16ThoughtOpKind::TwoQubit { op: Phase15TwoQubitOp::Swap }
    } else if has_sub(n, "advance"@) || has_sub(n, "forward"@) || has_sub(n, "move"@) {
        Phase16ThoughtOpKind::TwoQubit { op: Phase15TwoQubitOp::ControlledX }
    } else if has_sub(n, "align"@) || has_sub(n, "stabil"@) {
        Phase16ThoughtOpKind::TwoQubit { op: Phase15TwoQubitOp::ControlledZ }
    } else {
        let h = std_hash_of_str(n) % 5;
        if h == 0 {
            Phase16ThoughtOpKind::TwoQubit { op: Phase15TwoQubitOp::ControlledX }
        } else if h == 1 {
            Phase16ThoughtOpKind::TwoQubit { op: Phase15TwoQubitOp::ControlledZ }
        } else if h == 2 {
            Phase16ThoughtOpKind::TwoQubit { op: Phase15TwoQubitOp::Swap }
        } else if h == 3 {
            Phase16ThoughtOpKind::SingleQubit {
                target: Phase16QubitTarget::Q1,
                op: Phase13QubitUnaryOp::PauliX,
            }
        } else {
            Phase16ThoughtOpKind::SingleQubit {
                target: Phase16QubitTarget::Q2,
                op: Phase13QubitUnaryOp::PauliZ,
            }
        }
    }
}

/// `t` carries the label and signature that the thought-op builders give its kind.
pub open spec fn is_built_op(t: Phase16ThoughtOp) -> bool {
    match t.kind {
        Phase16ThoughtOpKind::SingleQubit { target, op } => {
            &&& t.label@ == op_name(op) + "("@ + target_name(target) + ")"@
            &&& t.op_signature@ == hash16(
                "kind=SingleQubit|target="@ + target_name(target) + "|op="@ + op_name(op),
            )
        },
        Phase16ThoughtOpKind::TwoQubit { op } => {
            &&& t.label@ == two_op_name(op)
            &&& t.op_signature@ == hash16("kind=TwoQubit|op="@ + two_op_name(op))
        },
    }
}

/// `ops` are the thought operations of `steps`, one for one.
pub open spec fn ops_of_steps(ops: Seq<Phase16ThoughtOp>, steps: Seq<String>) -> bool {
    &&& ops.len() == steps.len()
    &&& forall|k: int|
        0 <= k < ops.len() ==> (#[trigger] ops[k]).kind == step_kind(norm_text(steps[k]@))
            && is_built_op(ops[k])
}

/// The unary hint of a normalised step: turning calls for `PauliZ`, moving
/// for `PauliX`, any other step is placed by its hash.
pub open spec fn step_hint(n: Seq<char>) -> Phase13QubitUnaryOp {
    if has_sub(n, "left"@) || has_sub(n, "right"@) || has_sub(n, "turn"@) {
        Phase13QubitUnaryOp::PauliZ
    } else if has_sub(n, "move"@) || has_sub(n, "advance"@) || has_sub(n, "forward"@) {
        Phase13QubitUnaryOp::PauliX
    } else if std_hash_of_str(n) % 2 == 0 {
        Phase13QubitUnaryOp::PauliX
    } else {
        Phase13QubitUnaryOp::PauliZ
    }
}

/// The hints of the first and the last step (`PauliX`, `PauliZ` without steps).
pub open spec fn unary_pair(steps: Seq<String>) -> (Phase13QubitUnaryOp, Phase13QubitUnaryOp) {
    if steps.len() == 0 {
        (Phase13QubitUnaryOp::PauliX, Phase13QubitUnaryOp::PauliZ)
    } else {
        (step_hint(norm_text(steps[0]@)), step_hint(norm_text(steps.last()@)))
    }
}

/// How plan steps become thought operations, one per step and in order: a
/// step that mentions turning swaps the two qubits; otherwise one that
/// mentions advancing, moving forward or moving applies controlled-X;
/// otherwise one that mentions aligning or stabilizing applies
/// controlled-Z; the words are read in the step's normalised text.
pub proof fn lemma_steps_to_ops(ops: Seq<Phase16ThoughtOp>, steps: Seq<String>)
    requires
        ops_of_steps(ops, steps),
    ensures
        ops.len() == steps.len(),
        forall|k: int|
            0 <= k < ops.len() ==> ({
                let n = norm_text(steps[k]@);
                let turn = has_sub(n, "turn"@);
                let moving = has_sub(n, "advance"@) || has_sub(n, "forward"@) || has_sub(n, "move"@);
                let aligning = has_sub(n, "align"@) || has_sub(n, "stabil"@);
                &&& turn ==> (#[trigger] ops[k]).kind == (Phase16ThoughtOpKind::TwoQubit {
                    op: Phase15TwoQubitOp::Swap,
                })
                &&& !turn && moving ==> ops[k].kind == (Phase16ThoughtOpKind::TwoQubit {
                    op: Phase15TwoQubitOp::ControlledX,
                })
                &&& !turn && !moving && aligning ==> ops[k].kind == (Phase16ThoughtOpKind::TwoQubit {
                    op: Phase15TwoQubitOp::ControlledZ,
                })
            }),
{
}

/// What `parse_candidate_index` makes of a candidate id.
pub open spec fn candidate_index_of(id: Seq<char>) -> Result<usize, Seq<char>> {
    if id.len() >= "cand_"@.len() && id.subrange(0, "cand_"@.len() as int) == "cand_"@ {
        match parse_usize(id.subrange("cand_"@.len() as int, id.len() as int)) {
            Some(i) => Ok(i),
            None => Err("cognition_candidate_id_parse_failed"@),
        }
    } else {
        Err("cognition_candidate_id_prefix_invalid"@)
    }
}

// ── plan text, executable ────────────────────────────────────────────────────

/// Trims, lower-cases and collapses the whitespace of a text.
pub fn normalize_text(input: &str) -> (r: String)
    ensures
        r@ == norm_text(input@),
{
    let trimmed = trim_text(input);
    let lower = to_lowercase_text(trimmed);
    let r = collapse_whitespace(lower.as_str());
    proof {
        if trimmed@.len() == 0 {
            assert(lower@ =~= Seq::<char>::empty());
        }
    }
    r
}

/// Checks that a plan has a goal and steps, none of them blank.
pub fn validate_plan(plan: &CognitionPlan) -> (r: Result<(), String>)
    ensures
        match r {
            Ok(_) => plan_error(*plan) is None,
            Err(e) => plan_error(*plan) == Some(e@),
        },
{
    let goal = normalize_text(plan.goal.as_str());
    if goal.as_str().is_empty() {
        return Err(text("cognition_plan_goal_empty"));
    }
    if plan.steps.len() == 0 {
        return Err(text("cognition_plan_steps_empty"));
    }
    let mut idx: usize = 0;
    while idx < plan.steps.len()
        invariant
            idx <= plan.steps@.len(),
            norm_text(plan.goal@).len() > 0,
            plan.steps@.len() > 0,
            first_empty_step(plan.steps@, 0) == first_empty_step(plan.steps@, idx as int),
        decreases plan.steps@.len() - idx,
    {
        let step = normalize_text(plan.steps[idx].as_str());
        if step.as_str().is_empty() {
            let mut e = text("cognition_plan_step_empty:");
            crate::text::push_usize(&mut e, idx);
            return Err(e);
        }
        idx = idx + 1;
    }
    Ok(())
}

/// The basis qubit state that a seed text selects.
pub fn basis_state_from_seed(seed: &str) -> (r: Result<Phase13QubitState, String>)
    ensures
        match r {
            Ok(q) => {
                let b = seed_basis(seed@);
                &&& crate::cognition::phase13_qubit_kernel::is_built_state(q, b.0, b.1, b.2)
                &&& crate::cognition::phase13_qubit_kernel::valid_state(q)
            },
            Err(_) => false,
        },
{
    let idx = default_hash_str(seed) % 6;
    let (x, y, z): (i8, i8, i8) = if idx == 0 {
        (1, 0, 0)
    } else if idx == 1 {
        (-1, 0, 0)
    } else if idx == 2 {
        (0, 1, 0)
    } else if idx == 3 {
        (0, -1, 0)
    } else if idx == 4 {
        (0, 0, 1)
    } else {
        (0, 0, -1)
    };
    assert((x as int, y as int, z as int) == seed_basis(seed@));
    assert(crate::cognition::phase13_qubit_kernel::norm_sq(x as int, y as int, z as int) == 1)
        by (nonlinear_arith)
        requires
            (x == 0 && y == 0 && (z == 1 || z == -1)) || (x == 0 && z == 0 && (y == 1 || y == -1))
                || (y == 0 && z == 0 && (x == 1 || x == -1)),
    ;
    phase13_build_qubit_state(x, y, z)
}

/// The thought operation a plan step calls for.
pub fn step_to_thought_op(step: &str) -> (t: Phase16ThoughtOp)
    ensures
        t.kind == step_kind(norm_text(step@)),
        is_built_op(t),
{
    let normalized = normalize_text(step);
    let n = normalized.as_str();
    if contains_text(n, "turn") {
        return phase16_build_two_qubit_op(Phase15TwoQubitOp::Swap);
    }
    if contains_text(n, "advance") || contains_text(n, "forward") || contains_text(n, "move") {
        return phase16_build_two_qubit_op(Phase15TwoQubitOp::ControlledX);
    }
    if contains_text(n, "align") || contains_text(n, "stabil") {
        return phase16_build_two_qubit_op(Phase15TwoQubitOp::ControlledZ);
    }
    let h = default_hash_str(n) % 5;
    if h == 0 {
        phase16_build_two_qubit_op(Phase15TwoQubitOp::ControlledX)
    } else if h == 1 {
        phase16_build_two_qubit_op(Phase15TwoQubitOp::ControlledZ)
    } else if h == 2 {
        phase16_build_two_qubit_op(Phase15TwoQubitOp::Swap)
    } else if h == 3 {
        phase16_build_single_qubit_op(Phase16QubitTarget::Q1, Phase13QubitUnaryOp::PauliX)
    } else {
        phase16_build_single_qubit_op(Phase16QubitTarget::Q2, Phase13QubitUnaryOp::PauliZ)
    }
}

/// Applies the thought operations in turn to a binding.
pub fn replay_final_binding(
    initial_binding: &Phase15TwoQubitState,
    thought_ops: &[Phase16ThoughtOp],
) -> (r: Result<Phase15TwoQubitState, String>)
    ensures
        match r {
            Ok(s) => valid_two_state(*initial_binding) && valid_two_state(s) && is_binding_of(
                s,
                thought_steps(model_of(*initial_binding), op_kinds(thought_ops@)),
            ),
            Err(e) => two_state_error(*initial_binding) == Some(e@),
        },
{
    let mut current = initial_binding.duplicate();
    let mut i: usize = 0;
    proof {
        assert(op_kinds(thought_ops@).subrange(0, 0) =~= Seq::<Phase16ThoughtOpKind>::empty());
    }
    while i < thought_ops.len()
        invariant
            i <= thought_ops@.len(),
            i == 0 ==> current == *initial_binding,
            i > 0 ==> valid_two_state(*initial_binding) && valid_two_state(current) && is_binding_of(
                current,
                thought_steps(
                    model_of(*initial_binding),
                    op_kinds(thought_ops@).subrange(0, i as int),
                ),
            ),
        decreases thought_ops@.len() - i,
    {
        let next = match phase16_apply_thought_op(&current, &thought_ops[i]) {
            Ok(s) => s,
            Err(e) => return Err(e),
        };
        proof {
            let ks = op_kinds(thought_ops@);
            assert(ks.subrange(0, i + 1).drop_last() =~= ks.subrange(0, i as int));
            if i > 0 {
                crate::cognition::phase15_two_qubit_semantic_binding::lemma_valid_is_binding_of_model(
                    current,
                );
            }
        }
        current = next;
        i = i + 1;
    }
    proof {
        assert(op_kinds(thought_ops@).subrange(0, thought_ops@.len() as int) =~= op_kinds(
            thought_ops@,
        ));
    }
    if thought_ops.len() == 0 {
        match crate::cognition::phase15_two_qubit_semantic_binding::phase15_validate_two_qubit_invariants(
            &current,
        ) {
            Ok(_) => {},
            Err(e) => return Err(e),
        }
        proof {
            crate::cognition::phase15_two_qubit_semantic_binding::lemma_valid_is_binding_of_model(
                current,
            );
        }
    }
    Ok(current)
}

/// The unary hint of a plan step.
pub fn step_to_unary_hint(step: &str) -> (op: Phase13QubitUnaryOp)
    ensures
        op == step_hint(norm_text(step@)),
{
    let normalized = normalize_text(step);
    let n = normalized.as_str();
    if contains_text(n, "left") || contains_text(n, "right") || contains_text(n, "turn") {
        Phase13QubitUnaryOp::PauliZ
    } else if contains_text(n, "move") || contains_text(n, "advance") || contains_text(n, "forward") {
        Phase13QubitUnaryOp::PauliX
    } else if default_hash_str(n) % 2 == 0 {
        Phase13QubitUnaryOp::PauliX
    } else {
        Phase13QubitUnaryOp::PauliZ
    }
}

/// The hints of a plan's first and last steps.
pub fn phase14_unary_pair(plan: &CognitionPlan) -> (r: (Phase13QubitUnaryOp, Phase13QubitUnaryOp))
    ensures
        r == unary_pair(plan.steps@),
{
    let n = plan.steps.len();
    if n == 0 {
        (Phase13QubitUnaryOp::PauliX, Phase13QubitUnaryOp::PauliZ)
    } else {
        let first = step_to_unary_hint(plan.steps[0].as_str());
        let last = step_to_unary_hint(plan.steps[n - 1].as_str());
        (first, last)
    }
}

/// The index spelled by a candidate id `cand_<digits>`.
pub fn parse_candidate_index(candidate_id: &str) -> (r: Result<usize, String>)
    ensures
        match r {
            Ok(i) => candidate_index_of(candidate_id@) == Ok::<usize, Seq<char>>(i),
            Err(e) => candidate_index_of(candidate_id@) == Err::<usize, Seq<char>>(e@),
        },
{
    let suffix = match strip_prefix_text(candidate_id, "cand_") {
        Some(s) => s,
        None => return Err(text("cognition_candidate_id_prefix_invalid")),
    };
    match parse_usize_text(suffix) {
        Some(i) => Ok(i),
        None => Err(text("cognition_candidate_id_parse_failed")),
    }
}


// ── one plan through the pipeline ────────────────────────────────────────────

/// The run of plan `plan` under id `id` through the pipeline: its binding,
/// thought operations, trajectory, Pauli commutation table, final binding,
/// the three semantic measurements and the resonance field, and the output
/// recorded from them.
pub open spec fn is_pipeline_run(
    o: PlanPipelineOutput,
    id: Seq<char>,
    plan: CognitionPlan,
    initial: Phase15TwoQubitState,
    ops: Seq<Phase16ThoughtOp>,
    traj: Phase16ThoughtTrajectory,
    family: Phase14OperatorFamily,
    table: Phase14CommutationTable,
    fin: Phase15TwoQubitState,
    ms: Seq<Phase17SemanticMeasurement>,
    field: Phase18ResonanceField,
) -> bool {
    let b1 = seed_basis(goal_signature(plan));
    let b2 = seed_basis(step_signature(plan));
    let pair = unary_pair(plan.steps@);
    let anchor = if traj.steps@.len() > 0 {
        traj.steps@[0].op_signature@
    } else {
        traj.trajectory_signature@
    };
    let tr = o.trace;
    &&& is_binding_of(initial, initial_model(b1, b2))
    &&& ops_of_steps(ops, plan.steps@)
    &&& is_trajectory_of(traj, initial, ops)
    &&& is_pauli_family(family)
    &&& is_table_of(table, family)
    &&& is_binding_of(fin, thought_steps(model_of(initial), op_kinds(ops)))
    &&& ms.len() == 3
    &&& is_state_measurement(ms[0], fin.q1)
    &&& is_binding_measurement(ms[1], fin)
    &&& is_trajectory_measurement(ms[2], traj)
    &&& is_field_of(field, anchor, traj.final_binding_signature@, traj.trajectory_signature@)
    &&& is_inference_of(o.inference, traj, field)
    &&& tr.plan_id@ == id
    &&& tr.plan_signature@ == plan_signature(plan)
    &&& tr.goal_signature@ == goal_signature(plan)
    &&& tr.step_signature@ == step_signature(plan)
    &&& tr.initial_q1_signature@ == state_sig(b1.0, b1.1, b1.2)
    &&& tr.initial_q2_signature@ == state_sig(b2.0, b2.1, b2.2)
    &&& tr.phase14_commutation_signature@ == table.table_signature@
    &&& is_commutator(tr.phase14_commutator, pair.0, pair.1)
    &&& tr.phase15_initial_binding_signature@ == initial.binding_signature@
    &&& tr.phase16_trajectory_signature@ == traj.trajectory_signature@
    &&& tr.phase16_trajectory_kind == traj.trajectory_kind
    &&& tr.phase17_semantic_signature@ == hash16(join(semantic_sigs(ms), "|"@))
    &&& tr.phase17_semantic_digest@ == hash16(join(digests(ms), "|"@))
    &&& tr.phase17_trajectory_label == ms[2].semantic_label
    &&& tr.phase18_resonance_signature@ == field.resonance_signature@
    &&& tr.phase18_inference_signature@ == o.inference.inference_signature@
    &&& tr.phase18_final_label == o.inference.final_semantic_label
}

/// `o` is what the pipeline yields for plan `plan` under id `id`.
pub open spec fn is_pipeline_output(o: PlanPipelineOutput, id: Seq<char>, plan: CognitionPlan) -> bool {
    exists|
        initial: Phase15TwoQubitState,
        ops: Seq<Phase16ThoughtOp>,
        traj: Phase16ThoughtTrajectory,
        family: Phase14OperatorFamily,
        table: Phase14CommutationTable,
        fin: Phase15TwoQubitState,
        ms: Seq<Phase17SemanticMeasurement>,
        field: Phase18ResonanceField,
    | #[trigger] is_pipeline_run(o, id, plan, initial, ops, traj, family, table, fin, ms, field)
}

/// The goal, step and plan signatures of a plan.
fn plan_signatures(plan: &CognitionPlan) -> (r: (String, String, String))
    ensures
        r.0@ == goal_signature(*plan),
        r.1@ == step_signature(*plan),
        r.2@ == plan_signature(*plan),
{
    let mut goal_input = text("goal=");
    let goal_norm = normalize_text(plan.goal.as_str());
    push_str(&mut goal_input, goal_norm.as_str());
    let goal_signature = hash_text(goal_input.as_str());
    let mut normalized: Vec<String> = Vec::new();
    let mut k: usize = 0;
    while k < plan.steps.len()
        invariant
            k <= plan.steps@.len(),
            normalized@.len() == k,
            forall|m: int| 0 <= m < k ==> #[trigger] normalized@[m]@ == norm_text(plan.steps@[m]@),
        decreases plan.steps@.len() - k,
    {
        normalized.push(normalize_text(plan.steps[k].as_str()));
        k = k + 1;
    }
    assert(views(normalized@) =~= norm_steps(plan.steps@));
    let joined = join_strings(&normalized, "|");
    let step_signature = hash_text(joined.as_str());
    let mut plan_input = text("goal=");
    push_str(&mut plan_input, goal_signature.as_str());
    push_str(&mut plan_input, "|steps=");
    push_str(&mut plan_input, step_signature.as_str());
    let plan_signature = hash_text(plan_input.as_str());
    (goal_signature, step_signature, plan_signature)
}

/// The product binding of the basis qubits that two seeds select.
fn seed_binding(goal_seed: &str, step_seed: &str) -> (r: Result<Phase15TwoQubitState, String>)
    ensures
        match r {
            Ok(b) => valid_two_state(b) && is_binding_of(
                b,
                initial_model(seed_basis(goal_seed@), seed_basis(step_seed@)),
            ),
            Err(_) => false,
        },
{
    let q1 = match basis_state_from_seed(goal_seed) {
        Ok(q) => q,
        Err(e) => return Err(e),
    };
    let q2 = match basis_state_from_seed(step_seed) {
        Ok(q) => q,
        Err(e) => return Err(e),
    };
    phase15_build_two_qubit_state(q1, q2)
}

/// The thought operations of a plan's steps.
fn plan_thought_ops(plan: &CognitionPlan) -> (ops: Vec<Phase16ThoughtOp>)
    ensures
        ops_of_steps(ops@, plan.steps@),
{
    let mut thought_ops: Vec<Phase16ThoughtOp> = Vec::new();
    let mut j: usize = 0;
    while j < plan.steps.len()
        invariant
            j <= plan.steps@.len(),
            thought_ops@.len() == j,
            forall|m: int|
                0 <= m < j ==> (#[trigger] thought_ops@[m]).kind == step_kind(
                    norm_text(plan.steps@[m]@),
                ) && is_built_op(thought_ops@[m]),
        decreases plan.steps@.len() - j,
    {
        thought_ops.push(step_to_thought_op(plan.steps[j].as_str()));
        j = j + 1;
    }
    thought_ops
}

/// The state, binding and trajectory measurements of a run.
fn measure_run(final_binding: &Phase15TwoQubitState, trajectory: &Phase16ThoughtTrajectory) -> (r:
    Result<Vec<Phase17SemanticMeasurement>, String>)
    requires
        valid_two_state(*final_binding),
        crate::cognition::phase16_thought_path_trajectories::trajectory_error(*trajectory) is None,
    ensures
        match r {
            Ok(ms) => {
                &&& ms@.len() == 3
                &&& is_state_measurement(ms@[0], final_binding.q1)
                &&& is_binding_measurement(ms@[1], *final_binding)
                &&& is_trajectory_measurement(ms@[2], *trajectory)
            },
            Err(_) => false,
        },
{
    let m_state = match phase17_measure_semantic(&final_binding.q1) {
        Ok(m) => m,
        Err(e) => return Err(e),
    };
    let m_binding = match phase17_measure_binding(final_binding) {
        Ok(m) => m,
        Err(e) => return Err(e),
    };
    let m_trajectory = match phase17_measure_trajectory(trajectory) {
        Ok(m) => m,
        Err(e) => return Err(e),
    };
    let mut measurements: Vec<Phase17SemanticMeasurement> = Vec::new();
    measurements.push(m_state);
    measurements.push(m_binding);
    measurements.push(m_trajectory);
    Ok(measurements)
}

/// The resonance field of a trajectory (anchored at its first operation, or
/// at its own signature when it has none) and the trajectory's re-inference
/// under it.
fn infer_run(
    initial: &Phase15TwoQubitState,
    ops: &Vec<Phase16ThoughtOp>,
    trajectory: &Phase16ThoughtTrajectory,
) -> (r: Result<(Phase18ResonanceField, Phase18InferenceTrajectory), String>)
    requires
        valid_two_state(*initial),
        is_trajectory_of(*trajectory, *initial, ops@),
        forall|k: int| 0 <= k < ops@.len() ==> is_built_op(#[trigger] ops@[k]),
        ops@.len() <= MAX_PLAN_STEPS,
    ensures
        match r {
            Ok((field, inference)) => {
                &&& is_field_of(
                    field,
                    if trajectory.steps@.len() > 0 {
                        trajectory.steps@[0].op_signature@
                    } else {
                        trajectory.trajectory_signature@
                    },
                    trajectory.final_binding_signature@,
                    trajectory.trajectory_signature@,
                )
                &&& is_inference_of(inference, *trajectory, field)
                &&& inference_error(inference) is None
            },
            Err(_) => false,
        },
{
    proof {
        lemma_trajectory_is_governed(*trajectory, *initial, ops@);
        if trajectory.steps@.len() > 0 {
            assert(crate::cognition::phase16_thought_path_trajectories::is_trace_step(
                trajectory.steps@[0],
                model_of(*initial),
                ops@,
                0,
            ));
            assert(is_built_op(ops@[0]));
            match ops@[0].kind {
                Phase16ThoughtOpKind::SingleQubit { target, op } => {
                    crate::text::lemma_hash16_len(
                        "kind=SingleQubit|target="@ + target_name(target) + "|op="@ + op_name(op),
                    );
                },
                Phase16ThoughtOpKind::TwoQubit { op } => {
                    crate::text::lemma_hash16_len("kind=TwoQubit|op="@ + two_op_name(op));
                },
            }
        }
        let fm = crate::cognition::phase16_thought_path_trajectories::model_at(
            model_of(*initial),
            ops@,
            ops@.len() as int,
        );
        crate::text::lemma_hash16_len(
            "q1="@ + state_sig(fm.0.0, fm.0.1, fm.0.2) + "|q2="@ + state_sig(fm.1.0, fm.1.1, fm.1.2)
                + "|kind="@
                + crate::cognition::phase15_two_qubit_semantic_binding::binding_kind_name(fm.2)
                + "|history="@ + fm.3,
        );
    }
    let anchor: &str = if trajectory.steps.len() > 0 {
        trajectory.steps[0].op_signature.as_str()
    } else {
        trajectory.trajectory_signature.as_str()
    };
    let field = match phase18_build_resonance_field(
        anchor,
        trajectory.final_binding_signature.as_str(),
        trajectory.trajectory_signature.as_str(),
    ) {
        Ok(f) => f,
        Err(e) => return Err(e),
    };
    proof {
        assert forall|m: int| 0 <= m < trajectory.steps@.len() implies i32::MIN
            <= #[trigger] crate::cognition::phase18_resonance_inference::step_weight(
            trajectory.steps@[m],
            field,
        ) <= i32::MAX by {
            assert(crate::cognition::phase16_thought_path_trajectories::is_trace_step(
                trajectory.steps@[m],
                model_of(*initial),
                ops@,
                m,
            ));
        }
    }
    let inference = match phase18_infer_trajectory(trajectory, &field) {
        Ok(t) => t,
        Err(e) => return Err(e),
    };
    proof {
        lemma_inference_is_governed(inference, *trajectory, field);
    }
    Ok((field, inference))
}

/// Runs one validated plan through phases 13 to 18: seeds two qubits from
/// the goal and step signatures, binds them, traces the steps' thought
/// operations, measures the result and re-infers the trajectory under its
/// resonance field.
pub fn phase13_to_phase18_plan_pipeline(plan_id: &str, plan: &CognitionPlan) -> (r: Result<
    PlanPipelineOutput,
    String,
>)
    requires
        plan.steps@.len() <= MAX_PLAN_STEPS,
    ensures
        match r {
            Ok(o) => {
                &&& plan_error(*plan) is None
                &&& is_pipeline_output(o, plan_id@, *plan)
                &&& inference_error(o.inference) is None
                &&& o.inference.inference_steps@.len() == plan.steps@.len()
            },
            Err(e) => plan_error(*plan) == Some(e@),
        },
{
    match validate_plan(plan) {
        Ok(_) => {},
        Err(e) => return Err(e),
    }
    let (goal_signature, step_signature, plan_signature) = plan_signatures(plan);
    let initial_binding = match seed_binding(goal_signature.as_str(), step_signature.as_str()) {
        Ok(b) => b,
        Err(e) => return Err(e),
    };
    let thought_ops = plan_thought_ops(plan);
    let trajectory = match phase16_trace_thought_path(&initial_binding, thought_ops.as_slice()) {
        Ok(t) => t,
        Err(e) => {
            assert(false);
            return Err(e);
        },
    };
    let pauli_family = phase14_build_pauli_family();
    let commutation_table = phase14_build_commutation_table(&pauli_family);
    let unary_pair = phase14_unary_pair(plan);
    let commutator = match phase14_compute_commutator(unary_pair.0, unary_pair.1) {
        Ok(c) => c,
        Err(e) => {
            assert(false);
            return Err(e);
        },
    };
    let final_binding = match replay_final_binding(&initial_binding, thought_ops.as_slice()) {
        Ok(s) => s,
        Err(e) => {
            assert(false);
            return Err(e);
        },
    };
    proof {
        lemma_trajectory_is_governed(trajectory, initial_binding, thought_ops@);
    }
    let measurements = match measure_run(&final_binding, &trajectory) {
        Ok(ms) => ms,
        Err(e) => return Err(e),
    };
    let trajectory_label = measurements[2].semantic_label;
    let phase17_semantic_signature = phase17_compose_semantic_signature(measurements.as_slice());
    let phase17_semantic_digest = phase17_compose_semantic_digest(measurements.as_slice());
    let (resonance_field, inference) = match infer_run(&initial_binding, &thought_ops, &trajectory) {
        Ok(p) => p,
        Err(e) => return Err(e),
    };
    let trace = CognitionPlanTrace {
        plan_id: text(plan_id),
        plan_signature,
        goal_signature,
        step_signature,
        initial_q1_signature: initial_binding.q1.state_signature.clone(),
        initial_q2_signature: initial_binding.q2.state_signature.clone(),
        phase14_commutation_signature: commutation_table.table_signature.clone(),
        phase14_commutator: commutator,
        phase15_initial_binding_signature: initial_binding.binding_signature.clone(),
        phase16_trajectory_signature: trajectory.trajectory_signature.clone(),
        phase16_trajectory_kind: trajectory.trajectory_kind,
        phase17_semantic_signature,
        phase17_semantic_digest,
        phase17_trajectory_label: trajectory_label,
        phase18_resonance_signature: resonance_field.resonance_signature.clone(),
        phase18_inference_signature: inference.inference_signature.clone(),
        phase18_final_label: inference.final_semantic_label,
    };
    let output = PlanPipelineOutput { trace, inference };
    assert(is_pipeline_run(
        output,
        plan_id@,
        *plan,
        initial_binding,
        thought_ops@,
        trajectory,
        pauli_family,
        commutation_table,
        final_binding,
        measurements@,
        resonance_field,
    ));
    Ok(output)
}


// ── arbitration outcome ──────────────────────────────────────────────────────

/// The plan index that a decision's candidate id spells (`-1` when none).
pub open spec fn winner_index_of(d: Phase19ArbitrationDecision) -> int {
    match candidate_index_of(d.selected_candidate_id@) {
        Ok(i) => i as int,
        Err(_) => -1,
    }
}

/// `fd` is decision `d` over field `f` carried back to the pipeline outputs
/// `outs`: the winner's drift report, correction plan and stabilized
/// inference, with a digest over the published telemetry lines.
pub open spec fn is_finalized(
    fd: FinalizedCognitiveDecision,
    outs: Seq<PlanPipelineOutput>,
    f: Phase19ArbitrationField,
    d: Phase19ArbitrationDecision,
) -> bool {
    let w = winner_index_of(d);
    let win = outs[w];
    let inf = win.inference;
    &&& 0 <= w < outs.len()
    &&& is_drift_report_of(fd.drift_report, inf)
    &&& is_plan_of(fd.correction_plan, inf, d, fd.drift_report)
    &&& is_stabilized_of(fd.stabilized_inference, inf, fd.correction_plan)
    &&& fd.winner_plan_id@ == win.trace.plan_id@
    &&& fd.winner_plan_signature@ == win.trace.plan_signature@
    &&& fd.semantic_label == fd.stabilized_inference.stabilized_semantic_label
    &&& fd.arbitration_signature@ == f.arbitration_signature@
    &&& fd.correction_signature@ == fd.correction_plan.correction_signature@
    &&& fd.stabilization_signature@ == fd.stabilized_inference.stabilization_signature@
    &&& fd.trajectory_kind == win.trace.phase16_trajectory_kind
    &&& fd.telemetry_digest@ == hash16(
        "winner="@ + win.trace.plan_signature@ + "|field="@ + f.arbitration_signature@
            + "|decision="@ + d.decision_signature@ + "|corr="@ + correction_line(
            fd.correction_plan,
        ) + "|stab="@ + stabilization_line(fd.stabilized_inference),
    )
    &&& fd.arbitration_decision_signature@ == d.decision_signature@
    &&& fd.plan_traces@.len() == outs.len()
    &&& forall|k: int| 0 <= k < outs.len() ==> #[trigger] fd.plan_traces@[k] == outs[k].trace
    &&& fd.arbitration_field == f
    &&& fd.arbitration_decision == d
}

/// The candidate id of plan `w` spells `w` back.
pub proof fn lemma_candidate_id_index(w: int)
    requires
        0 <= w <= usize::MAX,
    ensures
        candidate_index_of(candidate_id(w)) == Ok::<usize, Seq<char>>(w as usize),
{
    let z = zero_pad(dec_nat(w as nat), 4);
    crate::text::lemma_zero_pad_value(w as nat, 4);
    let id = candidate_id(w);
    assert(id.subrange(0, "cand_"@.len() as int) =~= "cand_"@);
    assert(id.subrange("cand_"@.len() as int, id.len() as int) =~= z);
    assert(crate::text::is_digit(z[0]));
}

/// Carries an arbitration decision back to its plan: detects the winner's
/// drift, plans and applies its correction, and digests the telemetry lines.
pub fn finalize_cognitive_decision(
    outputs: Vec<PlanPipelineOutput>,
    field: Phase19ArbitrationField,
    decision: Phase19ArbitrationDecision,
) -> (r: Result<FinalizedCognitiveDecision, String>)
    requires
        forall|k: int|
            0 <= k < outputs@.len() ==> (#[trigger] outputs@[k]).inference.inference_steps@.len()
                <= MAX_PLAN_STEPS,
    ensures
        match r {
            Ok(fd) => {
                &&& inference_error(outputs@[winner_index_of(decision)].inference) is None
                &&& decision_error(decision) is None
                &&& is_finalized(fd, outputs@, field, decision)
            },
            Err(e) => match candidate_index_of(decision.selected_candidate_id@) {
                Err(pe) => e@ == pe,
                Ok(i) => if i >= outputs@.len() {
                    e@ == "cognition_candidate_index_out_of_bounds"@
                } else if inference_error(outputs@[i as int].inference) is Some {
                    inference_error(outputs@[i as int].inference) == Some(e@)
                } else {
                    decision_error(decision) == Some(e@)
                },
            },
        },
{
    let winner_index = match parse_candidate_index(decision.selected_candidate_id.as_str()) {
        Ok(i) => i,
        Err(e) => return Err(e),
    };
    if winner_index >= outputs.len() {
        return Err(text("cognition_candidate_index_out_of_bounds"));
    }
    let ghost outs = outputs@;
    let winner = &outputs[winner_index];
    let drift_report = match phase20_detect_drift(&winner.inference) {
        Ok(d) => d,
        Err(e) => return Err(e),
    };
    let correction_plan = match phase20_build_correction_plan(&winner.inference, &decision) {
        Ok(p) => p,
        Err(e) => return Err(e),
    };
    proof {
        let dr = choose|dr: Phase20DriftReport|
            is_drift_report_of(dr, winner.inference) && #[trigger] is_plan_of(
                correction_plan,
                winner.inference,
                decision,
                dr,
            );
        assert(is_plan_of(correction_plan, winner.inference, decision, drift_report));
        crate::cognition::phase20_self_correction_operators::lemma_plan_is_governed(
            correction_plan,
            winner.inference,
            decision,
            drift_report,
        );
        assert(outs[winner_index as int].inference.inference_steps@.len() <= MAX_PLAN_STEPS);
    }
    let stabilized_inference = match phase20_apply_self_correction(
        &winner.inference,
        &correction_plan,
    ) {
        Ok(s) => s,
        Err(e) => return Err(e),
    };
    let correction_telemetry = phase20_correction_telemetry_line(&correction_plan);
    let stabilization_telemetry = phase20_stabilization_telemetry_line(&stabilized_inference);
    let mut input = text("winner=");
    push_str(&mut input, winner.trace.plan_signature.as_str());
    push_str(&mut input, "|field=");
    push_str(&mut input, field.arbitration_signature.as_str());
    push_str(&mut input, "|decision=");
    push_str(&mut input, decision.decision_signature.as_str());
    push_str(&mut input, "|corr=");
    push_str(&mut input, correction_telemetry.as_str());
    push_str(&mut input, "|stab=");
    push_str(&mut input, stabilization_telemetry.as_str());
    let telemetry_digest = hash_text(input.as_str());
    let winner_plan_id = winner.trace.plan_id.clone();
    let winner_plan_signature = winner.trace.plan_signature.clone();
    let trajectory_kind = winner.trace.phase16_trajectory_kind;
    let arbitration_signature = field.arbitration_signature.clone();
    let correction_signature = correction_plan.correction_signature.clone();
    let stabilization_signature = stabilized_inference.stabilization_signature.clone();
    let arbitration_decision_signature = decision.decision_signature.clone();
    let semantic_label = stabilized_inference.stabilized_semantic_label;
    let mut rest = outputs;
    let mut plan_traces: Vec<CognitionPlanTrace> = Vec::new();
    while rest.len() > 0
        invariant
            plan_traces@.len() + rest@.len() == outs.len(),
            forall|k: int| 0 <= k < plan_traces@.len() ==> #[trigger] plan_traces@[k] == outs[k].trace,
            forall|k: int|
                0 <= k < rest@.len() ==> #[trigger] rest@[k] == outs[plan_traces@.len() + k],
        decreases rest@.len(),
    {
        let o = rest.remove(0);
        plan_traces.push(o.trace);
    }
    Ok(
        FinalizedCognitiveDecision {
            winner_plan_id,
            winner_plan_signature,
            semantic_label,
            arbitration_signature,
            correction_signature,
            stabilization_signature,
            trajectory_kind,
            telemetry_digest,
            arbitration_decision_signature,
            plan_traces,
            arbitration_field: field,
            arbitration_decision: decision,
            drift_report,
            correction_plan,
            stabilized_inference,
        },
    )
}


// ── sessions and tournaments ─────────────────────────────────────────────────

pub open spec fn infs_of(outs: Seq<PlanPipelineOutput>) -> Seq<Phase18InferenceTrajectory> {
    outs.map_values(|o: PlanPipelineOutput| o.inference)
}

proof fn lemma_no_bad_inference(infs: Seq<Phase18InferenceTrajectory>, i: int)
    requires
        0 <= i,
        forall|k: int| 0 <= k < infs.len() ==> inference_error(#[trigger] infs[k]) is None,
    ensures
        first_bad_inference(infs, i) is None,
    decreases infs.len() - i,
{
    if i < infs.len() {
        lemma_no_bad_inference(infs, i + 1);
    }
}

/// The winner of a resolution is the plan whose candidate id the decision
/// carries, and the decision is governed.
pub proof fn lemma_resolution_winner(
    f: Phase19ArbitrationField,
    d: Phase19ArbitrationDecision,
    infs: Seq<Phase18InferenceTrajectory>,
    meta: Phase19MetaOperator,
)
    requires
        is_resolution_of(f, d, infs, meta),
    ensures
        0 <= f.winning_index < infs.len(),
        winner_index_of(d) == f.winning_index,
        decision_error(d) is None,
{
    let cands = choose|cands: Seq<crate::cognition::phase19_arbitration_operators::Phase19ArbitrationCandidate>|
        {
            &&& cands.len() == infs.len()
            &&& forall|k: int|
                0 <= k < cands.len() ==> crate::cognition::phase19_arbitration_operators::is_candidate_of(
                    #[trigger] cands[k],
                    candidate_id(k),
                    infs[k],
                )
            &&& crate::cognition::phase19_arbitration_operators::is_arbitration_field_of(
                f,
                cands,
                meta,
            )
        };
    let w = f.winning_index as int;
    assert(crate::cognition::phase19_arbitration_operators::is_adjusted(
        f.candidates@[w],
        cands[w],
        meta,
    ));
    assert(crate::cognition::phase19_arbitration_operators::is_candidate_of(
        cands[w],
        candidate_id(w),
        infs[w],
    ));
    lemma_candidate_id_index(w);
    crate::cognition::phase19_arbitration_operators::lemma_decision_is_governed(f, d);
}

/// Arbitrates the inferences of pipeline outputs under
/// `SemanticCoherenceFirst`, handing the outputs back unchanged.
fn resolve_outputs(outputs: Vec<PlanPipelineOutput>) -> (r: Result<
    (Vec<PlanPipelineOutput>, Phase19ArbitrationField, Phase19ArbitrationDecision),
    String,
>)
    requires
        outputs@.len() > 0,
        forall|k: int| 0 <= k < outputs@.len() ==> inference_error(#[trigger] outputs@[k].inference) is None,
    ensures
        match r {
            Ok((outs, f, d)) => outs@ == outputs@ && is_resolution_of(
                f,
                d,
                infs_of(outputs@),
                Phase19MetaOperator::SemanticCoherenceFirst,
            ),
            Err(_) => false,
        },
{
    let ghost orig = outputs@;
    let mut rest = outputs;
    let mut traces: Vec<CognitionPlanTrace> = Vec::new();
    let mut inferences: Vec<Phase18InferenceTrajectory> = Vec::new();
    while rest.len() > 0
        invariant
            traces@.len() == inferences@.len(),
            traces@.len() + rest@.len() == orig.len(),
            forall|k: int| 0 <= k < traces@.len() ==> #[trigger] traces@[k] == orig[k].trace,
            forall|k: int| 0 <= k < inferences@.len() ==> #[trigger] inferences@[k] == orig[k].inference,
            forall|k: int| 0 <= k < rest@.len() ==> #[trigger] rest@[k] == orig[traces@.len() + k],
        decreases rest@.len(),
    {
        let o = rest.remove(0);
        traces.push(o.trace);
        inferences.push(o.inference);
    }
    assert(inferences@ =~= infs_of(orig));
    proof {
        lemma_no_bad_inference(inferences@, 0);
    }
    let (field, decision) = match phase19_resolve_inference_conflict(
        inferences.as_slice(),
        Phase19MetaOperator::SemanticCoherenceFirst,
    ) {
        Ok(p) => p,
        Err(e) => return Err(e),
    };
    let mut outs: Vec<PlanPipelineOutput> = Vec::new();
    let ghost infs = inferences@;
    let ghost trs = traces@;
    while traces.len() > 0
        invariant
            traces@.len() == inferences@.len(),
            outs@.len() + traces@.len() == orig.len(),
            trs.len() == orig.len(),
            infs.len() == orig.len(),
            forall|k: int| 0 <= k < orig.len() ==> #[trigger] trs[k] == orig[k].trace,
            forall|k: int| 0 <= k < orig.len() ==> #[trigger] infs[k] == orig[k].inference,
            forall|k: int| 0 <= k < outs@.len() ==> #[trigger] outs@[k] == orig[k],
            forall|k: int| 0 <= k < traces@.len() ==> #[trigger] traces@[k] == trs[outs@.len() + k],
            forall|k: int|
                0 <= k < inferences@.len() ==> #[trigger] inferences@[k] == infs[outs@.len() + k],
        decreases traces@.len(),
    {
        let trace = traces.remove(0);
        let inference = inferences.remove(0);
        outs.push(PlanPipelineOutput { trace, inference });
    }
    assert(outs@ =~= orig);
    Ok((outs, field, decision))
}

/// The pieces of a session between two plans.
pub open spec fn session_run(
    res: CognitionSessionResult,
    a: CognitionPlan,
    b: CognitionPlan,
    oa: PlanPipelineOutput,
    ob: PlanPipelineOutput,
    f: Phase19ArbitrationField,
    d: Phase19ArbitrationDecision,
    fd: FinalizedCognitiveDecision,
) -> bool {
    &&& is_pipeline_output(oa, "plan_a"@, a)
    &&& is_pipeline_output(ob, "plan_b"@, b)
    &&& is_resolution_of(
        f,
        d,
        seq![oa.inference, ob.inference],
        Phase19MetaOperator::SemanticCoherenceFirst,
    )
    &&& is_finalized(fd, seq![oa, ob], f, d)
    &&& res.winner_plan_id == fd.winner_plan_id
    &&& res.winner_plan_signature == fd.winner_plan_signature
    &&& res.semantic_label == fd.semantic_label
    &&& res.arbitration_signature == fd.arbitration_signature
    &&& res.correction_signature == fd.correction_signature
    &&& res.stabilization_signature == fd.stabilization_signature
    &&& res.trajectory_kind == fd.trajectory_kind
    &&& res.telemetry_digest == fd.telemetry_digest
    &&& res.arbitration_decision_signature == fd.arbitration_decision_signature
    &&& res.plan_traces == fd.plan_traces
    &&& res.arbitration_field == fd.arbitration_field
    &&& res.arbitration_decision == fd.arbitration_decision
    &&& res.drift_report == fd.drift_report
    &&& res.correction_plan == fd.correction_plan
    &&& res.stabilized_inference == fd.stabilized_inference
}

/// `res` is the session between plans `a` (as `plan_a`) and `b` (as `plan_b`).
pub open spec fn is_session_of(res: CognitionSessionResult, a: CognitionPlan, b: CognitionPlan) -> bool {
    exists|
        oa: PlanPipelineOutput,
        ob: PlanPipelineOutput,
        f: Phase19ArbitrationField,
        d: Phase19ArbitrationDecision,
        fd: FinalizedCognitiveDecision,
    | #[trigger] session_run(res, a, b, oa, ob, f, d, fd)
}

/// Runs two plans through the pipeline, arbitrates them under
/// `SemanticCoherenceFirst` and self-corrects the winner.
#[verifier::rlimit(60)]
pub fn run_cognition_session(plan_a: &CognitionPlan, plan_b: &CognitionPlan) -> (r: Result<
    CognitionSessionResult,
    String,
>)
    requires
        plan_a.steps@.len() <= MAX_PLAN_STEPS,
        plan_b.steps@.len() <= MAX_PLAN_STEPS,
    ensures
        match r {
            Ok(res) => {
                &&& plan_error(*plan_a) is None
                &&& plan_error(*plan_b) is None
                &&& is_session_of(res, *plan_a, *plan_b)
            },
            Err(e) => if plan_error(*plan_a) is Some {
                plan_error(*plan_a) == Some(e@)
            } else {
                plan_error(*plan_b) == Some(e@)
            },
        },
{
    let oa = match phase13_to_phase18_plan_pipeline("plan_a", plan_a) {
        Ok(o) => o,
        Err(e) => return Err(e),
    };
    let ob = match phase13_to_phase18_plan_pipeline("plan_b", plan_b) {
        Ok(o) => o,
        Err(e) => return Err(e),
    };
    let mut outputs: Vec<PlanPipelineOutput> = Vec::new();
    outputs.push(oa);
    outputs.push(ob);
    let ghost outs = outputs@;
    let (outputs, field, decision) = match resolve_outputs(outputs) {
        Ok(t) => t,
        Err(e) => return Err(e),
    };
    proof {
        assert(infs_of(outs) =~= seq![outs[0].inference, outs[1].inference]);
        lemma_resolution_winner(field, decision, infs_of(outs), Phase19MetaOperator::SemanticCoherenceFirst);
    }
    let fd = match finalize_cognitive_decision(outputs, field, decision) {
        Ok(fd) => fd,
        Err(e) => return Err(e),
    };
    let res = CognitionSessionResult {
        winner_plan_id: fd.winner_plan_id,
        winner_plan_signature: fd.winner_plan_signature,
        semantic_label: fd.semantic_label,
        arbitration_signature: fd.arbitration_signature,
        correction_signature: fd.correction_signature,
        stabilization_signature: fd.stabilization_signature,
        trajectory_kind: fd.trajectory_kind,
        telemetry_digest: fd.telemetry_digest,
        arbitration_decision_signature: fd.arbitration_decision_signature,
        plan_traces: fd.plan_traces,
        arbitration_field: fd.arbitration_field,
        arbitration_decision: fd.arbitration_decision,
        drift_report: fd.drift_report,
        correction_plan: fd.correction_plan,
        stabilized_inference: fd.stabilized_inference,
    };
    assert(outs =~= seq![outs[0], outs[1]]);
    assert(session_run(res, *plan_a, *plan_b, outs[0], outs[1], field, decision, fd));
    Ok(res)
}

/// The id of the `k`-th plan of a tournament: `plan_01`, `plan_02`, ...
pub open spec fn tournament_id(k: int) -> Seq<char> {
    "plan_"@ + zero_pad(dec_nat((k + 1) as nat), 2)
}

/// The first plan, from `i` on, that fails validation, and its error.
pub open spec fn first_bad_plan(plans: Seq<CognitionPlan>, i: int) -> Option<Seq<char>>
    decreases plans.len() - i,
{
    if i < 0 || i >= plans.len() {
        None
    } else if plan_error(plans[i]) is Some {
        plan_error(plans[i])
    } else {
        first_bad_plan(plans, i + 1)
    }
}

/// The pieces of a tournament between plans.
pub open spec fn tournament_run(
    res: CognitionTournamentResult,
    plans: Seq<CognitionPlan>,
    outs: Seq<PlanPipelineOutput>,
    f: Phase19ArbitrationField,
    d: Phase19ArbitrationDecision,
    fd: FinalizedCognitiveDecision,
) -> bool {
    &&& outs.len() == plans.len()
    &&& forall|k: int|
        0 <= k < plans.len() ==> is_pipeline_output(#[trigger] outs[k], tournament_id(k), plans[k])
    &&& is_resolution_of(f, d, infs_of(outs), Phase19MetaOperator::SemanticCoherenceFirst)
    &&& is_finalized(fd, outs, f, d)
    &&& res.winner_plan_id == fd.winner_plan_id
    &&& res.winner_plan_signature == fd.winner_plan_signature
    &&& res.semantic_label == fd.semantic_label
    &&& res.arbitration_signature == fd.arbitration_signature
    &&& res.correction_signature == fd.correction_signature
    &&& res.stabilization_signature == fd.stabilization_signature
    &&& res.trajectory_kind == fd.trajectory_kind
    &&& res.telemetry_digest == fd.telemetry_digest
    &&& res.arbitration_decision_signature == fd.arbitration_decision_signature
    &&& res.candidate_count == fd.plan_traces@.len()
    &&& res.plan_traces == fd.plan_traces
    &&& res.arbitration_field == fd.arbitration_field
    &&& res.arbitration_decision == fd.arbitration_decision
    &&& res.drift_report == fd.drift_report
    &&& res.correction_plan == fd.correction_plan
    &&& res.stabilized_inference == fd.stabilized_inference
}

/// `res` is the tournament between `plans`, the `k`-th entered as `plan_<k+1>`.
pub open spec fn is_tournament_of(res: CognitionTournamentResult, plans: Seq<CognitionPlan>) -> bool {
    exists|
        outs: Seq<PlanPipelineOutput>,
        f: Phase19ArbitrationField,
        d: Phase19ArbitrationDecision,
        fd: FinalizedCognitiveDecision,
    | #[trigger] tournament_run(res, plans, outs, f, d, fd)
}

/// A tournament counts one candidate per plan and traces them in order,
/// the `k`-th under the id `plan_<k+1>` (two digits at least).
pub proof fn lemma_tournament_shape(res: CognitionTournamentResult, plans: Seq<CognitionPlan>)
    requires
        is_tournament_of(res, plans),
    ensures
        res.candidate_count == plans.len(),
        res.plan_traces@.len() == plans.len(),
        forall|k: int| 0 <= k < plans.len() ==> (#[trigger] res.plan_traces@[k]).plan_id@ == tournament_id(k),
{
    let (outs, f, d, fd) = choose|
        outs: Seq<PlanPipelineOutput>,
        f: Phase19ArbitrationField,
        d: Phase19ArbitrationDecision,
        fd: FinalizedCognitiveDecision,
    | #[trigger] tournament_run(res, plans, outs, f, d, fd);
    assert forall|k: int| 0 <= k < plans.len() implies (#[trigger] res.plan_traces@[k]).plan_id@ == tournament_id(k) by {
        assert(is_pipeline_output(outs[k], tournament_id(k), plans[k]));
        assert(res.plan_traces@[k] == outs[k].trace);
    }
}

/// Runs three or more plans through the pipeline, arbitrates them under
/// `SemanticCoherenceFirst` and self-corrects the winner.
#[verifier::rlimit(60)]
pub fn run_cognition_tournament(plans: &[CognitionPlan]) -> (r: Result<
    CognitionTournamentResult,
    String,
>)
    requires
        forall|k: int| 0 <= k < plans@.len() ==> (#[trigger] plans@[k]).steps@.len() <= MAX_PLAN_STEPS,
    ensures
        match r {
            Ok(res) => {
                &&& plans@.len() >= 3
                &&& first_bad_plan(plans@, 0) is None
                &&& is_tournament_of(res, plans@)
            },
            Err(e) => if plans@.len() < 3 {
                e@ == "cognition_tournament_requires_at_least_3_plans"@
            } else {
                first_bad_plan(plans@, 0) == Some(e@)
            },
        },
{
    if plans.len() < 3 {
        return Err(text("cognition_tournament_requires_at_least_3_plans"));
    }
    let mut outputs: Vec<PlanPipelineOutput> = Vec::new();
    let mut idx: usize = 0;
    while idx < plans.len()
        invariant
            3 <= plans@.len(),
            idx <= plans@.len(),
            forall|k: int| 0 <= k < plans@.len() ==> (#[trigger] plans@[k]).steps@.len() <= MAX_PLAN_STEPS,
            first_bad_plan(plans@, 0) == first_bad_plan(plans@, idx as int),
            outputs@.len() == idx,
            forall|k: int|
                0 <= k < idx ==> is_pipeline_output(#[trigger] outputs@[k], tournament_id(k), plans@[k])
                    && inference_error(outputs@[k].inference) is None
                    && outputs@[k].inference.inference_steps@.len() <= MAX_PLAN_STEPS,
        decreases plans@.len() - idx,
    {
        let mut id = text("plan_");
        push_u64_pad2(&mut id, (idx + 1) as u64);
        let o = match phase13_to_phase18_plan_pipeline(id.as_str(), &plans[idx]) {
            Ok(o) => o,
            Err(e) => return Err(e),
        };
        outputs.push(o);
        idx = idx + 1;
    }
    let ghost outs = outputs@;
    let (outputs, field, decision) = match resolve_outputs(outputs) {
        Ok(t) => t,
        Err(e) => return Err(e),
    };
    proof {
        lemma_resolution_winner(field, decision, infs_of(outs), Phase19MetaOperator::SemanticCoherenceFirst);
    }
    let fd = match finalize_cognitive_decision(outputs, field, decision) {
        Ok(fd) => fd,
        Err(e) => return Err(e),
    };
    let candidate_count = fd.plan_traces.len();
    let res = CognitionTournamentResult {
        winner_plan_id: fd.winner_plan_id,
        winner_plan_signature: fd.winner_plan_signature,
        semantic_label: fd.semantic_label,
        arbitration_signature: fd.arbitration_signature,
        correction_signature: fd.correction_signature,
        stabilization_signature: fd.stabilization_signature,
        trajectory_kind: fd.trajectory_kind,
        telemetry_digest: fd.telemetry_digest,
        arbitration_decision_signature: fd.arbitration_decision_signature,
        candidate_count,
        plan_traces: fd.plan_traces,
        arbitration_field: fd.arbitration_field,
        arbitration_decision: fd.arbitration_decision,
        drift_report: fd.drift_report,
        correction_plan: fd.correction_plan,
        stabilized_inference: fd.stabilized_inference,
    };
    assert(tournament_run(res, plans@, outs, field, decision, fd));
    Ok(res)
}

} // verus!
