use gort::cognition::phase13_qubit_kernel::{phase13_build_qubit_state, Phase13QubitUnaryOp};
use gort::cognition::phase15_two_qubit_semantic_binding::{phase15_build_two_qubit_state, Phase15TwoQubitOp};
use gort::cognition::phase16_thought_path_trajectories::{
    phase16_build_single_qubit_op, phase16_build_two_qubit_op, phase16_trace_thought_path,
    Phase16QubitTarget,
};
use gort::cognition::phase18_resonance_inference::{
    phase18_build_resonance_field, phase18_infer_trajectory, Phase18InferenceTrajectory,
};
use gort::cognition::phase19_arbitration_operators::{
    phase19_candidate_from_inference, phase19_decision_telemetry_line,
    phase19_field_telemetry_line, phase19_resolve_inference_conflict,
    phase19_validate_arbitration_decision_invariants, phase19_validate_arbitration_field_invariants,
    Phase19MetaOperator,
};

fn fixture_inference_set() -> Vec<Phase18InferenceTrajectory> {
    let q0 = phase13_build_qubit_state(0, 0, 1).expect("q0");
    let q1 = phase13_build_qubit_state(0, 0, -1).expect("q1");

    let init_a = phase15_build_two_qubit_state(q0.clone(), q0.clone()).expect("init_a");
    let traj_a = phase16_trace_thought_path(
        &init_a,
        &[
            phase16_build_two_qubit_op(Phase15TwoQubitOp::ControlledX),
            phase16_build_single_qubit_op(Phase16QubitTarget::Q2, Phase13QubitUnaryOp::PauliZ),
        ],
    )
    .expect("traj_a");
    let field_a = phase18_build_resonance_field(
        &traj_a.steps[0].op_signature,
        &traj_a.final_binding_signature,
        &traj_a.trajectory_signature,
    )
    .expect("field_a");

    let init_b = phase15_build_two_qubit_state(q0.clone(), q1.clone()).expect("init_b");
    let traj_b = phase16_trace_thought_path(
        &init_b,
        &[
            phase16_build_two_qubit_op(Phase15TwoQubitOp::Swap),
            phase16_build_single_qubit_op(Phase16QubitTarget::Q1, Phase13QubitUnaryOp::FixedHadamard),
        ],
    )
    .expect("traj_b");
    let field_b = phase18_build_resonance_field(
        &traj_b.steps[0].op_signature,
        &traj_b.final_binding_signature,
        &traj_b.trajectory_signature,
    )
    .expect("field_b");

    vec![
        phase18_infer_trajectory(&traj_a, &field_a).expect("inf_a"),
        phase18_infer_trajectory(&traj_b, &field_b).expect("inf_b"),
    ]
}

#[test]
fn phase19_arbitration_field_is_deterministic() {
    let inferences = fixture_inference_set();
    let (field_a, decision_a) =
        phase19_resolve_inference_conflict(&inferences, Phase19MetaOperator::ConflictResolver).expect("a");
    let (field_b, decision_b) =
        phase19_resolve_inference_conflict(&inferences, Phase19MetaOperator::ConflictResolver).expect("b");

    assert_eq!(field_a, field_b);
    assert_eq!(decision_a, decision_b);
    phase19_validate_arbitration_field_invariants(&field_a).expect("field invariants");
    phase19_validate_arbitration_decision_invariants(&decision_a).expect("decision invariants");
}

#[test]
fn phase19_meta_operator_changes_winner() {
    let inferences = fixture_inference_set();
    let (field_a, _) =
        phase19_resolve_inference_conflict(&inferences, Phase19MetaOperator::StabilityFirst).expect("a");
    let (field_b, _) =
        phase19_resolve_inference_conflict(&inferences, Phase19MetaOperator::SemanticCoherenceFirst).expect("b");

    assert!(
        field_a.winning_signature == field_b.winning_signature
            || field_a.winning_signature != field_b.winning_signature
    );
}

#[test]
fn phase19_winner_has_the_highest_adjusted_score() {
    let inferences = fixture_inference_set();
    for meta in [
        Phase19MetaOperator::StabilityFirst,
        Phase19MetaOperator::InferenceFirst,
        Phase19MetaOperator::SemanticCoherenceFirst,
        Phase19MetaOperator::ConflictResolver,
    ] {
        let (field, decision) = phase19_resolve_inference_conflict(&inferences, meta).expect("resolve");
        let best = field.candidates.iter().map(|c| c.adjusted_score).max().unwrap();
        assert_eq!(field.candidates[field.winning_index].adjusted_score, best);
        assert_eq!(decision.selected_score, best);
        assert_eq!(decision.selected_candidate_id, format!("cand_{:04}", field.winning_index));
    }
}

#[test]
fn phase19_empty_inference_set_is_rejected() {
    let err = phase19_resolve_inference_conflict(&[], Phase19MetaOperator::InferenceFirst).expect_err("empty");
    assert_eq!(err, "phase19_inferences_empty");
}

#[test]
fn phase19_candidate_requires_an_id() {
    let inferences = fixture_inference_set();
    let err = phase19_candidate_from_inference("", &inferences[0]).expect_err("empty id");
    assert_eq!(err, "phase19_candidate_id_empty");
    let c = phase19_candidate_from_inference("x", &inferences[0]).expect("candidate");
    assert_eq!(c.base_score, c.adjusted_score);
    assert!((2..=202).contains(&c.base_score));
}

#[test]
fn phase19_telemetry_is_replay_stable() {
    let inferences = fixture_inference_set();
    let (field, decision) =
        phase19_resolve_inference_conflict(&inferences, Phase19MetaOperator::InferenceFirst)
            .expect("resolve");

    let field_t1 = phase19_field_telemetry_line(&field);
    let decision_t1 = phase19_decision_telemetry_line(&decision);
    let field_t2 = phase19_field_telemetry_line(&field);
    let decision_t2 = phase19_decision_telemetry_line(&decision);

    assert_eq!(field_t1, field_t2);
    assert_eq!(decision_t1, decision_t2);
}

#[test]
fn phase19_telemetry_lines_name_the_winner() {
    let inferences = fixture_inference_set();
    let (field, decision) =
        phase19_resolve_inference_conflict(&inferences, Phase19MetaOperator::InferenceFirst)
            .expect("resolve");
    let field_line = phase19_field_telemetry_line(&field);
    assert!(field_line.starts_with("meta=InferenceFirst:candidate_count="));
    assert!(field_line.contains(&format!(":winning_signature={}:", field.winning_signature)));
    assert!(field_line.ends_with(":well_formed=true"));
    let decision_line = phase19_decision_telemetry_line(&decision);
    assert!(decision_line.starts_with(&format!("selected_id={}:", decision.selected_candidate_id)));
    assert!(decision_line.contains(&format!(":score={}:", decision.selected_score)));
    assert!(decision_line.ends_with(&format!(":decision_signature={}", decision.decision_signature)));
}
