use gort::cognition::phase13_qubit_kernel::{phase13_apply_unitary, phase13_build_qubit_state, Phase13QubitUnaryOp};
use gort::cognition::phase15_two_qubit_semantic_binding::{
    phase15_apply_two_qubit_op, phase15_build_two_qubit_state, Phase15TwoQubitOp,
};
use gort::cognition::phase16_thought_path_trajectories::{phase16_build_two_qubit_op, phase16_trace_thought_path};
use gort::cognition::phase17_semantic_measurement_operators::{
    phase17_compose_semantic_digest, phase17_compose_semantic_signature, phase17_measure_binding,
    phase17_measure_semantic, phase17_measure_trajectory, phase17_measurement_telemetry_line,
    phase17_validate_semantic_measurement_invariants, Phase17InterpretationSurface,
    Phase17SemanticLabel,
};

#[test]
fn phase17_state_surface_is_deterministic() {
    let z0 = phase13_build_qubit_state(0, 0, 1).expect("z0");
    let a = phase17_measure_semantic(&z0).expect("a");
    let b = phase17_measure_semantic(&z0).expect("b");
    assert_eq!(a, b);
    assert_eq!(a.semantic_label, Phase17SemanticLabel::Alignment);
}

#[test]
fn phase17_binding_surface_detects_entangling_influence() {
    let q0 = phase13_build_qubit_state(0, 0, 1).expect("q0");
    let state = phase15_build_two_qubit_state(q0.clone(), q0.clone()).expect("state");
    let entangled = phase15_apply_two_qubit_op(&state, Phase15TwoQubitOp::ControlledX).expect("entangled");

    let measurement = phase17_measure_binding(&entangled).expect("measurement");
    assert_eq!(measurement.semantic_label, Phase17SemanticLabel::EntanglingInfluence);
    phase17_validate_semantic_measurement_invariants(&measurement).expect("invariants");
}

#[test]
fn phase17_trajectory_surface_maps_divergent_to_conflict() {
    let q0 = phase13_build_qubit_state(0, 0, 1).expect("q0");
    let initial = phase15_build_two_qubit_state(q0.clone(), q0.clone()).expect("initial");
    let ops = [phase16_build_two_qubit_op(Phase15TwoQubitOp::Swap)];
    let trajectory = phase16_trace_thought_path(&initial, &ops).expect("trajectory");

    let measurement = phase17_measure_trajectory(&trajectory).expect("measurement");
    assert!(measurement.measurement_well_formed);
    assert!(!measurement.semantic_signature.is_empty());
}

#[test]
fn phase17_compose_signatures_are_replay_stable() {
    let z0 = phase13_build_qubit_state(0, 0, 1).expect("z0");
    let zx = phase13_apply_unitary(&z0, Phase13QubitUnaryOp::PauliX).expect("zx");

    let m0 = phase17_measure_semantic(&z0).expect("m0");
    let m1 = phase17_measure_semantic(&zx).expect("m1");
    let sig_a = phase17_compose_semantic_signature(&[m0.clone(), m1.clone()]);
    let sig_b = phase17_compose_semantic_signature(&[m0.clone(), m1.clone()]);
    let dig_a = phase17_compose_semantic_digest(&[m0.clone(), m1.clone()]);
    let dig_b = phase17_compose_semantic_digest(&[m0, m1]);

    assert_eq!(sig_a, sig_b);
    assert_eq!(dig_a, dig_b);
}

#[test]
fn phase17_z_surface_labels_each_axis() {
    let down = phase13_build_qubit_state(0, 0, -1).expect("down");
    assert_eq!(phase17_measure_semantic(&down).expect("m").semantic_label, Phase17SemanticLabel::Contrast);
    let plus_x = phase13_build_qubit_state(1, 0, 0).expect("+x");
    let m = phase17_measure_semantic(&plus_x).expect("m");
    assert_eq!(m.semantic_label, Phase17SemanticLabel::Reinforcement);
    assert_eq!(m.semantic_surface, Phase17InterpretationSurface::ZAlignment);
    let minus_x = phase13_build_qubit_state(-1, 0, 0).expect("-x");
    assert_eq!(phase17_measure_semantic(&minus_x).expect("m").semantic_label, Phase17SemanticLabel::Conflict);
}

#[test]
fn phase17_tampered_measurement_is_rejected() {
    let z0 = phase13_build_qubit_state(0, 0, 1).expect("z0");
    let mut m = phase17_measure_semantic(&z0).expect("m");
    m.telemetry_digest = String::new();
    let err = phase17_validate_semantic_measurement_invariants(&m).expect_err("tampered");
    assert_eq!(err, "phase17_telemetry_digest_empty");
}

#[test]
fn phase17_measurement_telemetry_line_lists_the_measurement() {
    let z0 = phase13_build_qubit_state(0, 0, 1).expect("z0");
    let m = phase17_measure_semantic(&z0).expect("m");
    let line = phase17_measurement_telemetry_line(&m);
    assert_eq!(
        line,
        format!(
            "surface={:?}:label=Alignment:source={}:semantic_signature={}:telemetry_digest={}:well_formed=true",
            m.semantic_surface, m.source_signature, m.semantic_signature, m.telemetry_digest
        )
    );
}
