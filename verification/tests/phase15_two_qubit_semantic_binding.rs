use gort::cognition::phase13_qubit_kernel::{phase13_build_qubit_state, Phase13QubitState};
use gort::cognition::phase15_two_qubit_semantic_binding::{
    phase15_apply_two_qubit_op, phase15_apply_two_qubit_sequence, phase15_binding_telemetry_line,
    phase15_build_two_qubit_state, phase15_op_telemetry_line,
    phase15_validate_two_qubit_invariants, Phase15BindingKind, Phase15TwoQubitOp,
};

fn z0() -> Phase13QubitState {
    phase13_build_qubit_state(0, 0, 1).unwrap()
}
fn z1() -> Phase13QubitState {
    phase13_build_qubit_state(0, 0, -1).unwrap()
}
fn xp() -> Phase13QubitState {
    phase13_build_qubit_state(1, 0, 0).unwrap()
}

#[test]
fn phase15_binding_classification_is_correct() {
    let corr = phase15_build_two_qubit_state(z0(), z0()).unwrap();
    assert_eq!(corr.binding_kind, Phase15BindingKind::Correlated);

    let anti = phase15_build_two_qubit_state(z0(), z1()).unwrap();
    assert_eq!(anti.binding_kind, Phase15BindingKind::AntiCorrelated);

    let sep = phase15_build_two_qubit_state(z0(), xp()).unwrap();
    assert_eq!(sep.binding_kind, Phase15BindingKind::Separable);
}

#[test]
fn phase15_invariants_hold_for_product_state() {
    let s = phase15_build_two_qubit_state(z0(), z0()).unwrap();
    phase15_validate_two_qubit_invariants(&s).expect("invariants");
    assert!(s.state_well_formed);
}

#[test]
fn phase15_swap_exchanges_qubits_deterministically() {
    let s = phase15_build_two_qubit_state(z0(), z1()).unwrap();
    let swapped = phase15_apply_two_qubit_op(&s, Phase15TwoQubitOp::Swap).unwrap();
    assert_eq!(swapped.q1, z1());
    assert_eq!(swapped.q2, z0());
    let swapped2 = phase15_apply_two_qubit_op(&s, Phase15TwoQubitOp::Swap).unwrap();
    assert_eq!(swapped, swapped2);
}

#[test]
fn phase15_controlled_x_marks_entangling_op_applied() {
    let s = phase15_build_two_qubit_state(z0(), z0()).unwrap();
    let after = phase15_apply_two_qubit_op(&s, Phase15TwoQubitOp::ControlledX).unwrap();
    assert_eq!(after.binding_kind, Phase15BindingKind::EntanglingOpApplied);
    assert_eq!(after.q2, z1());
}

#[test]
fn phase15_sequence_is_replay_stable() {
    let initial = phase15_build_two_qubit_state(z0(), z0()).unwrap();
    let ops = [
        Phase15TwoQubitOp::ControlledX,
        Phase15TwoQubitOp::Swap,
        Phase15TwoQubitOp::ControlledZ,
    ];
    let a = phase15_apply_two_qubit_sequence(&initial, &ops).unwrap();
    let b = phase15_apply_two_qubit_sequence(&initial, &ops).unwrap();
    assert_eq!(a, b);
    assert_eq!(a.op_count, 3);
    assert!(!a.sequence_signature.is_empty());
}

#[test]
fn phase15_controlled_x_leaves_q2_when_control_is_down() {
    let s = phase15_build_two_qubit_state(z1(), z0()).unwrap();
    let after = phase15_apply_two_qubit_op(&s, Phase15TwoQubitOp::ControlledX).unwrap();
    assert_eq!(after.q2, z0());
    assert_eq!(after.binding_kind, Phase15BindingKind::EntanglingOpApplied);
}

#[test]
fn phase15_invalid_qubit_is_rejected() {
    let mut bad = z0();
    bad.state_well_formed = false;
    let err = phase15_build_two_qubit_state(bad, z0()).expect_err("bad q1");
    assert_eq!(err, "phase13_state_marked_malformed");
}

#[test]
fn phase15_op_telemetry_lines_are_fixed() {
    assert_eq!(phase15_op_telemetry_line(Phase15TwoQubitOp::Swap), "op=Swap:signature=SWAP:[q1<->q2]");
    assert_eq!(
        phase15_op_telemetry_line(Phase15TwoQubitOp::ControlledZ),
        "op=ControlledZ:signature=CZ:[q1.z>0?Z(q2):I]"
    );
    assert_eq!(
        phase15_op_telemetry_line(Phase15TwoQubitOp::ControlledX),
        "op=ControlledX:signature=CX:[q1.z>0?X(q2):I]"
    );
}

#[test]
fn phase15_binding_telemetry_line_lists_the_binding() {
    let st = phase15_build_two_qubit_state(z0(), z1()).expect("state");
    let line = phase15_binding_telemetry_line(&st);
    assert_eq!(
        line,
        format!(
            "q1_sig={}:q2_sig={}:binding={:?}:binding_sig={}:op_history={}:well_formed=true",
            st.q1.state_signature, st.q2.state_signature, st.binding_kind, st.binding_signature,
            st.op_history_signature
        )
    );
}
