use gort::cognition::phase13_qubit_kernel::{phase13_build_qubit_state, Phase13QubitUnaryOp};
use gort::cognition::phase15_two_qubit_semantic_binding::{phase15_build_two_qubit_state, Phase15TwoQubitOp};
use gort::cognition::phase16_thought_path_trajectories::{
    phase16_build_single_qubit_op, phase16_build_two_qubit_op, phase16_trace_thought_path,
    Phase16QubitTarget,
};
use gort::cognition::phase18_resonance_inference::{
    phase18_build_resonance_field, phase18_infer_trajectory, Phase18InferenceTrajectory,
};
use gort::cognition::phase19_arbitration_operators::{
    phase19_resolve_inference_conflict, Phase19ArbitrationDecision, Phase19MetaOperator,
};
use gort::cognition::phase20_self_correction_operators::{
    phase20_apply_self_correction, phase20_build_correction_plan, phase20_correction_telemetry_line,
    phase20_detect_drift, phase20_stabilization_telemetry_line,
    phase20_validate_correction_plan_invariants, phase20_validate_stabilized_inference_invariants,
};

fn fixture() -> (Phase18InferenceTrajectory, Phase19ArbitrationDecision) {
    let q0 = phase13_build_qubit_state(0, 0, 1).expect("q0");
    let initial = phase15_build_two_qubit_state(q0.clone(), q0.clone()).expect("init");
    let trajectory = phase16_trace_thought_path(
        &initial,
        &[
            phase16_build_two_qubit_op(Phase15TwoQubitOp::ControlledX),
            phase16_build_single_qubit_op(Phase16QubitTarget::Q2, Phase13QubitUnaryOp::PauliZ),
        ],
    )
    .expect("trajectory");
    let field18 = phase18_build_resonance_field(
        &trajectory.steps[0].op_signature,
        &trajectory.final_binding_signature,
        &trajectory.trajectory_signature,
    )
    .expect("field18");
    let inference = phase18_infer_trajectory(&trajectory, &field18).expect("inference");
    let (_, decision) =
        phase19_resolve_inference_conflict(&[inference.clone()], Phase19MetaOperator::ConflictResolver)
            .expect("resolve");
    (inference, decision)
}

#[test]
fn phase20_correction_plan_is_deterministic() {
    let (inference, decision) = fixture();
    let a = phase20_build_correction_plan(&inference, &decision).expect("a");
    let b = phase20_build_correction_plan(&inference, &decision).expect("b");
    assert_eq!(a, b);
    phase20_validate_correction_plan_invariants(&a).expect("invariants");
}

#[test]
fn phase20_apply_self_correction_is_replay_stable() {
    let (inference, decision) = fixture();
    let plan = phase20_build_correction_plan(&inference, &decision).expect("plan");
    let base = phase20_apply_self_correction(&inference, &plan).expect("base");
    for _ in 0..50 {
        let current = phase20_apply_self_correction(&inference, &plan).expect("current");
        assert_eq!(current, base);
    }
    phase20_validate_stabilized_inference_invariants(&base).expect("stabilized invariants");
}

#[test]
fn phase20_telemetry_lines_have_their_fields() {
    let (inference, decision) = fixture();
    let plan = phase20_build_correction_plan(&inference, &decision).expect("plan");
    let stabilized = phase20_apply_self_correction(&inference, &plan).expect("stabilized");
    let p1 = phase20_correction_telemetry_line(&plan);
    let s1 = phase20_stabilization_telemetry_line(&stabilized);
    assert!(p1.starts_with("op="));
    assert!(p1.ends_with(":well_formed=true"));
    assert!(s1.contains(&format!(":delta={}:", stabilized.stabilization_delta)));
}

#[test]
fn phase20_drift_report_scores_follow_the_label() {
    let (inference, decision) = fixture();
    let drift = phase20_detect_drift(&inference).expect("drift");
    assert_eq!(drift.invariant_violation_count, 0);
    assert!((0..=6).contains(&drift.inference_instability_score));
    assert_eq!(
        drift.drift_detected,
        drift.semantic_divergence_score + drift.inference_instability_score > 4
    );
    let plan = phase20_build_correction_plan(&inference, &decision).expect("plan");
    let bonus = if drift.drift_detected { 5 } else { 1 };
    assert_eq!(
        plan.correction_weight,
        drift.semantic_divergence_score * 3 + drift.inference_instability_score + bonus
    );
    let stabilized = phase20_apply_self_correction(&inference, &plan).expect("stabilized");
    assert_eq!(
        stabilized.stabilization_delta,
        plan.correction_weight + inference.inference_steps.len() as i32
    );
}

#[test]
fn phase20_malformed_plan_is_rejected() {
    let (inference, decision) = fixture();
    let mut plan = phase20_build_correction_plan(&inference, &decision).expect("plan");
    plan.correction_weight = -1;
    let err = phase20_apply_self_correction(&inference, &plan).expect_err("negative weight");
    assert_eq!(err, "phase20_correction_weight_negative");
    plan.plan_well_formed = false;
    let err = phase20_validate_correction_plan_invariants(&plan).expect_err("malformed");
    assert_eq!(err, "phase20_plan_marked_malformed");
}

#[test]
fn phase20_telemetry_is_stable() {
    let (inference, decision) = fixture();
    let plan = phase20_build_correction_plan(&inference, &decision).expect("plan");
    let stabilized = phase20_apply_self_correction(&inference, &plan).expect("stabilized");

    let p1 = phase20_correction_telemetry_line(&plan);
    let p2 = phase20_correction_telemetry_line(&plan);
    let s1 = phase20_stabilization_telemetry_line(&stabilized);
    let s2 = phase20_stabilization_telemetry_line(&stabilized);

    assert_eq!(p1, p2);
    assert_eq!(s1, s2);
}
