use gort::cognition::phase13_qubit_kernel::{phase13_build_qubit_state, Phase13QubitUnaryOp};
use gort::cognition::phase15_two_qubit_semantic_binding::{phase15_build_two_qubit_state, Phase15TwoQubitOp};
use gort::cognition::phase16_thought_path_trajectories::{
    phase16_build_single_qubit_op, phase16_build_two_qubit_op, phase16_trace_thought_path,
    Phase16QubitTarget, Phase16ThoughtTrajectory,
};
use gort::cognition::phase17_semantic_measurement_operators::Phase17SemanticLabel;
use gort::cognition::phase18_resonance_inference::{
    phase18_build_resonance_field, phase18_infer_step, phase18_infer_trajectory,
    phase18_inference_telemetry_line, phase18_resonance_telemetry_line,
    phase18_select_influence_operator, phase18_validate_inference_trajectory_invariants,
    phase18_validate_resonance_field_invariants,
};

fn fixture_trajectory() -> Phase16ThoughtTrajectory {
    let q0 = phase13_build_qubit_state(0, 0, 1).expect("q0");
    let initial = phase15_build_two_qubit_state(q0.clone(), q0.clone()).expect("initial");
    let ops = vec![
        phase16_build_two_qubit_op(Phase15TwoQubitOp::ControlledX),
        phase16_build_single_qubit_op(Phase16QubitTarget::Q2, Phase13QubitUnaryOp::PauliZ),
    ];
    phase16_trace_thought_path(&initial, &ops).expect("trajectory")
}

#[test]
fn phase18_resonance_field_is_replay_stable() {
    let t = fixture_trajectory();
    let a = phase18_build_resonance_field(&t.steps[0].op_signature, &t.final_binding_signature, &t.trajectory_signature)
        .expect("field a");
    let b = phase18_build_resonance_field(&t.steps[0].op_signature, &t.final_binding_signature, &t.trajectory_signature)
        .expect("field b");
    assert_eq!(a, b);
    phase18_validate_resonance_field_invariants(&a).expect("invariants");
}

#[test]
fn phase18_inference_step_is_deterministic() {
    let t = fixture_trajectory();
    let field = phase18_build_resonance_field(&t.steps[0].op_signature, &t.final_binding_signature, &t.trajectory_signature)
        .expect("field");
    let op = phase18_select_influence_operator(&field).expect("operator");
    let a = phase18_infer_step(&t.steps[0], &field, op).expect("a");
    let b = phase18_infer_step(&t.steps[0], &field, op).expect("b");
    assert_eq!(a, b);
}

#[test]
fn phase18_inference_trajectory_is_replay_stable() {
    let t = fixture_trajectory();
    let field = phase18_build_resonance_field(&t.steps[0].op_signature, &t.final_binding_signature, &t.trajectory_signature)
        .expect("field");

    let baseline = phase18_infer_trajectory(&t, &field).expect("baseline");
    phase18_validate_inference_trajectory_invariants(&baseline).expect("invariants");

    for _ in 0..50 {
        let current = phase18_infer_trajectory(&t, &field).expect("current");
        assert_eq!(current, baseline);
    }
}

#[test]
fn phase18_empty_trajectory_has_alignment_label() {
    let q0 = phase13_build_qubit_state(0, 0, 1).expect("q0");
    let initial = phase15_build_two_qubit_state(q0.clone(), q0.clone()).expect("initial");
    let t = phase16_trace_thought_path(&initial, &[]).expect("trajectory");
    let field = phase18_build_resonance_field("empty-op", &t.final_binding_signature, &t.trajectory_signature)
        .expect("field");

    let inferred = phase18_infer_trajectory(&t, &field).expect("inferred");
    assert_eq!(inferred.final_semantic_label, Phase17SemanticLabel::Alignment);
}

#[test]
fn phase18_field_weights_sum_and_stay_in_range() {
    let t = fixture_trajectory();
    let f = phase18_build_resonance_field(&t.steps[0].op_signature, &t.final_binding_signature, &t.trajectory_signature)
        .expect("field");
    assert_eq!(f.total_weight, f.operator_weight + f.binding_weight + f.trajectory_weight);
    for w in [f.operator_weight, f.binding_weight, f.trajectory_weight] {
        assert!((1..=97).contains(&w));
    }
}

#[test]
fn phase18_empty_signature_is_rejected() {
    let err = phase18_build_resonance_field("", "b", "t").expect_err("empty op");
    assert_eq!(err, "phase18_operator_signature_empty");
    let err = phase18_build_resonance_field("o", "b", "").expect_err("empty trajectory");
    assert_eq!(err, "phase18_trajectory_signature_empty");
}

#[test]
fn phase18_inference_keeps_every_step() {
    let t = fixture_trajectory();
    let f = phase18_build_resonance_field(&t.steps[0].op_signature, &t.final_binding_signature, &t.trajectory_signature)
        .expect("field");
    let inf = phase18_infer_trajectory(&t, &f).expect("inference");
    assert_eq!(inf.inference_steps.len(), t.steps.len());
    for (k, s) in inf.inference_steps.iter().enumerate() {
        assert_eq!(s.step_index, k);
        assert_eq!(s.resonance_weight, f.total_weight + k as i32);
    }
}

#[test]
fn phase18_telemetry_lines_list_the_field_and_inference() {
    let t = fixture_trajectory();
    let field = phase18_build_resonance_field(&t.steps[0].op_signature, &t.final_binding_signature, &t.trajectory_signature)
        .expect("field");
    assert_eq!(
        phase18_resonance_telemetry_line(&field),
        format!(
            "op_sig={}:binding_sig={}:trajectory_sig={}:ow={}:bw={}:tw={}:sum={}:res_sig={}:well_formed={}",
            field.operator_signature, field.binding_signature, field.trajectory_signature,
            field.operator_weight, field.binding_weight, field.trajectory_weight, field.total_weight,
            field.resonance_signature, field.field_well_formed
        )
    );
    let inf = phase18_infer_trajectory(&t, &field).expect("inference");
    assert_eq!(
        phase18_inference_telemetry_line(&inf),
        format!(
            "initial={}:res={}:op={:?}:steps={}:final_step={}:label={:?}:inference_sig={}:telemetry_digest={}:well_formed={}",
            inf.initial_trajectory_signature, inf.resonance_signature, inf.influence_operator,
            inf.inference_steps.len(), inf.final_step_signature, inf.final_semantic_label,
            inf.inference_signature, inf.telemetry_digest, inf.trajectory_well_formed
        )
    );
}
