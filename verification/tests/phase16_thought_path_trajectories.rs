use gort::cognition::phase13_qubit_kernel::{phase13_build_qubit_state, Phase13QubitState, Phase13QubitUnaryOp};
use gort::cognition::phase15_two_qubit_semantic_binding::{
    phase15_build_two_qubit_state, Phase15BindingKind, Phase15TwoQubitOp, Phase15TwoQubitState,
};
use gort::cognition::phase16_thought_path_trajectories::{
    phase16_apply_thought_op, phase16_build_single_qubit_op, phase16_trajectory_telemetry_line, phase16_build_two_qubit_op,
    phase16_trace_thought_path, phase16_validate_trajectory_invariants, Phase16QubitTarget,
    Phase16TrajectoryKind,
};

fn z0() -> Phase13QubitState {
    phase13_build_qubit_state(0, 0, 1).unwrap()
}

fn correlated() -> Phase15TwoQubitState {
    phase15_build_two_qubit_state(z0(), z0()).unwrap()
}

#[test]
fn phase16_degenerate_trajectory_is_well_formed() {
    let initial = correlated();
    let t = phase16_trace_thought_path(&initial, &[]).expect("empty trajectory");
    phase16_validate_trajectory_invariants(&t).expect("invariants");
    assert_eq!(t.trajectory_kind, Phase16TrajectoryKind::Degenerate);
    assert_eq!(t.step_count, 0);
}

#[test]
fn phase16_convergent_trajectory_is_classified_correctly() {
    let initial = correlated();
    let ops = vec![
        phase16_build_single_qubit_op(Phase16QubitTarget::Q1, Phase13QubitUnaryOp::PauliX),
        phase16_build_single_qubit_op(Phase16QubitTarget::Q1, Phase13QubitUnaryOp::PauliX),
    ];
    let t = phase16_trace_thought_path(&initial, &ops).expect("convergent");
    phase16_validate_trajectory_invariants(&t).expect("invariants");
    assert_eq!(t.final_binding_kind, Phase15BindingKind::Correlated);
    assert_eq!(t.trajectory_kind, Phase16TrajectoryKind::Convergent);
}

#[test]
fn phase16_divergent_trajectory_is_classified_correctly() {
    let initial = phase15_build_two_qubit_state(z0(), z0()).unwrap();
    let ops = vec![phase16_build_single_qubit_op(Phase16QubitTarget::Q2, Phase13QubitUnaryOp::PauliX)];
    let t = phase16_trace_thought_path(&initial, &ops).expect("divergent");
    assert_eq!(t.final_binding_kind, Phase15BindingKind::AntiCorrelated);
    assert_eq!(t.trajectory_kind, Phase16TrajectoryKind::Divergent);
}

#[test]
fn phase16_entangling_trajectory_is_classified_correctly() {
    let initial = correlated();
    let ops = vec![phase16_build_two_qubit_op(Phase15TwoQubitOp::ControlledX)];
    let t = phase16_trace_thought_path(&initial, &ops).expect("entangling");
    assert_eq!(t.trajectory_kind, Phase16TrajectoryKind::Entangling);
}

#[test]
fn phase16_mixed_trajectory_is_replay_stable() {
    let initial = correlated();
    let ops = vec![
        phase16_build_single_qubit_op(Phase16QubitTarget::Q1, Phase13QubitUnaryOp::FixedHadamard),
        phase16_build_two_qubit_op(Phase15TwoQubitOp::ControlledX),
        phase16_build_single_qubit_op(Phase16QubitTarget::Q2, Phase13QubitUnaryOp::PauliZ),
        phase16_build_two_qubit_op(Phase15TwoQubitOp::Swap),
        phase16_build_single_qubit_op(Phase16QubitTarget::Q1, Phase13QubitUnaryOp::PauliX),
    ];
    let a = phase16_trace_thought_path(&initial, &ops).expect("a");
    let b = phase16_trace_thought_path(&initial, &ops).expect("b");
    assert_eq!(a, b);
    assert_eq!(a.step_count, 5);
    assert!(!a.trajectory_signature.is_empty());
}

#[test]
fn phase16_op_labels_follow_the_operator() {
    let single = phase16_build_single_qubit_op(Phase16QubitTarget::Q2, Phase13QubitUnaryOp::PauliZ);
    assert_eq!(single.label, "PauliZ(Q2)");
    let two = phase16_build_two_qubit_op(Phase15TwoQubitOp::Swap);
    assert_eq!(two.label, "Swap");
    assert_eq!(two.op_signature.len(), 16);
}

#[test]
fn phase16_trace_steps_chain_binding_signatures() {
    let initial = correlated();
    let ops = vec![
        phase16_build_two_qubit_op(Phase15TwoQubitOp::ControlledX),
        phase16_build_two_qubit_op(Phase15TwoQubitOp::Swap),
    ];
    let t = phase16_trace_thought_path(&initial, &ops).expect("trace");
    assert_eq!(t.steps[0].from_binding_signature, initial.binding_signature);
    assert_eq!(t.steps[0].to_binding_signature, t.steps[1].from_binding_signature);
    assert_eq!(t.steps[1].to_binding_signature, t.final_binding_signature);
    let after = phase16_apply_thought_op(&initial, &ops[0]).expect("apply");
    assert_eq!(after.binding_signature, t.steps[0].to_binding_signature);
}

#[test]
fn phase16_trajectory_telemetry_counts_entangling_steps() {
    let initial = correlated();
    let ops = vec![
        phase16_build_two_qubit_op(Phase15TwoQubitOp::ControlledX),
        phase16_build_single_qubit_op(Phase16QubitTarget::Q1, Phase13QubitUnaryOp::PauliX),
    ];
    let t = phase16_trace_thought_path(&initial, &ops).expect("trajectory");
    let entangling = t
        .steps
        .iter()
        .filter(|s| s.to_binding_kind == Phase15BindingKind::EntanglingOpApplied)
        .count();
    let line = phase16_trajectory_telemetry_line(&t);
    assert_eq!(
        line,
        format!(
            "initial_sig={}:final_sig={}:kind={:?}:steps=2:entangling_steps={}:trajectory_sig={}:well_formed=true",
            t.initial_binding_signature, t.final_binding_signature, t.trajectory_kind, entangling,
            t.trajectory_signature
        )
    );
}
