use gort::cognition::phase13_qubit_kernel::Phase13QubitUnaryOp;
use gort::cognition::phase14_operator_algebra::{
    phase14_build_clifford_family, phase14_build_commutation_table, phase14_build_pauli_family,
    phase14_algebra_telemetry_line, phase14_compute_commutator, phase14_family_telemetry_line, phase14_validate_family_invariants,
    phase14_validate_table_invariants,
};

#[test]
fn phase14_pauli_family_is_well_formed() {
    let family = phase14_build_pauli_family();
    phase14_validate_family_invariants(&family).expect("pauli family valid");
    assert_eq!(family.ops.len(), 2);
    assert!(family.family_well_formed);
}

#[test]
fn phase14_commutator_xz_is_non_zero_and_deterministic() {
    let a = phase14_compute_commutator(Phase13QubitUnaryOp::PauliX, Phase13QubitUnaryOp::PauliZ)
        .expect("commutator");
    let b = phase14_compute_commutator(Phase13QubitUnaryOp::PauliX, Phase13QubitUnaryOp::PauliZ)
        .expect("commutator replay");
    assert_eq!(a, b);
    assert!(!a.is_zero, "X and Z must not commute");
}

#[test]
fn phase14_commutator_xx_is_zero() {
    let comm = phase14_compute_commutator(Phase13QubitUnaryOp::PauliX, Phase13QubitUnaryOp::PauliX)
        .expect("commutator");
    assert!(comm.is_zero, "[X, X] must be zero");
}

#[test]
fn phase14_commutation_table_is_replay_stable() {
    let family = phase14_build_pauli_family();
    let table_a = phase14_build_commutation_table(&family);
    let table_b = phase14_build_commutation_table(&family);
    assert_eq!(table_a, table_b);
    phase14_validate_table_invariants(&table_a, &family).expect("table valid");
    assert_eq!(table_a.pairs.len(), 1);
    assert!(!table_a.pairs[0].commutator.is_zero);
}

#[test]
fn phase14_clifford_family_includes_hadamard_sentinel() {
    let family = phase14_build_clifford_family();
    phase14_validate_family_invariants(&family).expect("clifford family valid");
    assert_eq!(family.ops.len(), 3);
    let table = phase14_build_commutation_table(&family);
    let h_pairs: Vec<_> = table
        .pairs
        .iter()
        .filter(|p| p.lhs_label == "FixedHadamard" || p.rhs_label == "FixedHadamard")
        .collect();
    assert!(
        h_pairs
            .iter()
            .all(|p| p.commutator.commutator_signature == "irrational_pair_sentinel"),
        "Hadamard pairs must carry the irrational sentinel"
    );
}

#[test]
fn phase14_commutator_xz_matrix_is_exact() {
    // XZ - ZX = [[0,-2],[2,0]]
    let c = phase14_compute_commutator(Phase13QubitUnaryOp::PauliX, Phase13QubitUnaryOp::PauliZ)
        .expect("commutator");
    assert_eq!(c.matrix, [[0, -2], [2, 0]]);
}

#[test]
fn phase14_commutator_rejects_hadamard() {
    let err = phase14_compute_commutator(Phase13QubitUnaryOp::FixedHadamard, Phase13QubitUnaryOp::PauliZ)
        .expect_err("no integer matrix");
    assert_eq!(err, "phase14_integer_matrix_unsupported_for_fixed_hadamard");
}

#[test]
fn phase14_clifford_table_has_three_pairs() {
    let family = phase14_build_clifford_family();
    let table = phase14_build_commutation_table(&family);
    assert_eq!(table.pairs.len(), 3);
    phase14_validate_table_invariants(&table, &family).expect("table valid");
}

#[test]
fn phase14_algebra_telemetry_counts_commuting_pairs() {
    let family = phase14_build_pauli_family();
    let table = phase14_build_commutation_table(&family);
    let line = phase14_algebra_telemetry_line(&family, &table);
    assert_eq!(
        line,
        format!(
            "family={}:kind=PauliGroup:op_count=2:pairs=1:commuting=0:non_commuting=1:family_sig={}:table_sig={}:well_formed=true",
            family.family_name, family.family_signature, table.table_signature
        )
    );
}

#[test]
fn phase14_family_telemetry_joins_the_labels() {
    let family = phase14_build_clifford_family();
    let labels: Vec<&str> = family.ops.iter().map(|e| e.label.as_str()).collect();
    let line = phase14_family_telemetry_line(&family);
    assert_eq!(
        line,
        format!(
            "family={}:kind={:?}:ops=[{}]:signature={}:well_formed={}",
            family.family_name,
            family.family_kind,
            labels.join(","),
            family.family_signature,
            family.family_well_formed
        )
    );
}
