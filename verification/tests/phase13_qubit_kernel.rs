use gort::cognition::phase13_qubit_kernel::{
    phase13_apply_unitary, phase13_apply_unitary_sequence, phase13_build_qubit_state,
    phase13_measure_z, phase13_measurement_telemetry_line, phase13_ops_commute,
    phase13_state_telemetry_line, phase13_validate_qubit_state_invariants,
    Phase13QubitUnaryOp,
};

#[test]
fn phase13_build_state_rejects_non_unit_bloch_vector() {
    let err = phase13_build_qubit_state(1, 1, 0).expect_err("norm must fail");
    assert_eq!(err, "phase13_invalid_state_norm: expected 1, observed 2");
}

#[test]
fn phase13_apply_unitary_is_replay_stable() {
    let state = phase13_build_qubit_state(0, 0, 1).expect("state");
    let a = phase13_apply_unitary(&state, Phase13QubitUnaryOp::FixedHadamard).expect("a");
    let b = phase13_apply_unitary(&state, Phase13QubitUnaryOp::FixedHadamard).expect("b");
    assert_eq!(a, b);
}

#[test]
fn phase13_measurement_fixture_contract_is_deterministic() {
    let plus_x = phase13_build_qubit_state(1, 0, 0).expect("state");
    let out_a = phase13_measure_z(&plus_x).expect("measurement a");
    let out_b = phase13_measure_z(&plus_x).expect("measurement b");
    assert_eq!(out_a, out_b);
    assert_eq!(out_a.bit, 0);
    assert_eq!(out_a.post_state, phase13_build_qubit_state(0, 0, 1).expect("zero"));
}

#[test]
fn phase13_x_and_z_are_non_commuting_ops() {
    let commute = phase13_ops_commute(Phase13QubitUnaryOp::PauliX, Phase13QubitUnaryOp::PauliZ)
        .expect("x/z composition should be computable");
    assert!(!commute);
}

#[test]
fn phase13_unitary_sequence_helper_is_replay_stable() {
    let initial = phase13_build_qubit_state(0, 0, 1).expect("initial");
    let ops = [
        Phase13QubitUnaryOp::FixedHadamard,
        Phase13QubitUnaryOp::PauliZ,
        Phase13QubitUnaryOp::PauliX,
        Phase13QubitUnaryOp::FixedHadamard,
    ];

    let a = phase13_apply_unitary_sequence(&initial, &ops).expect("sequence a");
    let b = phase13_apply_unitary_sequence(&initial, &ops).expect("sequence b");

    assert_eq!(a, b);
    assert_eq!(a.step_count, 4);
    assert!(!a.evolution_signature.is_empty());
}

#[test]
fn phase13_pauli_x_flips_the_z_axis() {
    let state = phase13_build_qubit_state(0, 0, 1).expect("state");
    let flipped = phase13_apply_unitary(&state, Phase13QubitUnaryOp::PauliX).expect("flipped");
    assert_eq!((flipped.x, flipped.y, flipped.z), (0, 0, -1));
    assert_eq!(flipped.state_signature.len(), 16);
    phase13_validate_qubit_state_invariants(&flipped).expect("flipped state is governed");
}

#[test]
fn phase13_hadamard_has_no_integer_commutation() {
    let err = phase13_ops_commute(Phase13QubitUnaryOp::FixedHadamard, Phase13QubitUnaryOp::PauliX)
        .expect_err("hadamard has no integer matrix");
    assert_eq!(err, "phase13_integer_matrix_unsupported_for_fixed_hadamard");
}

#[test]
fn phase13_tampered_state_is_rejected() {
    let mut state = phase13_build_qubit_state(0, 1, 0).expect("state");
    state.state_well_formed = false;
    let err = phase13_validate_qubit_state_invariants(&state).expect_err("tampered");
    assert_eq!(err, "phase13_state_marked_malformed");
}

#[test]
fn phase13_state_telemetry_line_lists_the_state() {
    let s = phase13_build_qubit_state(0, 0, -1).expect("state");
    let line = phase13_state_telemetry_line(&s);
    assert_eq!(
        line,
        format!("x=0:y=0:z=-1:norm_error=0:state_signature={}:well_formed=true", s.state_signature)
    );
    assert_eq!(line, phase13_state_telemetry_line(&s));
}

#[test]
fn phase13_measurement_telemetry_line_lists_the_outcome() {
    let plus_x = phase13_build_qubit_state(1, 0, 0).expect("state");
    let out = phase13_measure_z(&plus_x).expect("measurement");
    let line = phase13_measurement_telemetry_line(&out);
    assert_eq!(
        line,
        format!(
            "policy={}:bit=0:post_signature={}:measurement_signature={}",
            out.policy, out.post_state.state_signature, out.measurement_signature
        )
    );
}
