use gort::cognition::constraint::{ConstraintKind, SemanticConstraint};
use gort::cognition::phase62_structural_experiment::{
    apply_phase62_structural_experiment, classify_v3b_branch, phase62_environment_fits, scaffold_anchor_closure_spine_v1,
    scaffold_contradiction_closure_probe_v3b, scaffold_contradiction_relief_probe_v3,
    scaffold_continuity_external_probe_v2, scaffold_continuity_plateau_probe_v2,
    scaffold_recovery_bridge_candidate_v1, select_continuity_plateau_subject,
    target_has_hard_contradiction_signature, Phase62Environment, Phase62ExperimentKind,
    Phase62ExperimentPlan, Phase62RuntimeSummary, Phase62StructuralConfig, Phase62V3Branch,
    PHASE62_RECOVERY_BRIDGE_PREDICATE, PHASE62_V2_EXTERNAL_DAMPEN_PREDICATE,
    PHASE62_V2_PLATEAU_ANCHOR_REINFORCEMENT_PREDICATE, PHASE62_V2_PLATEAU_CONTINUITY_LIFT_PREDICATE,
    PHASE62_V2_REGION_COHESION_PREDICATE, PHASE62_V3B_CLOSURE_REGION_REPAIR_PREDICATE,
    PHASE62_V3_CONTINUITY_REBINDING_PREDICATE, PHASE62_V3_CONTRADICTION_RELIEF_PREDICATE,
};
use gort::cognition::phase63_topology_repair::{
    apply_phase63_repair_plan, phase63_expand_closure_deficit_follow_on_targets,
    phase63_operator_from_rebased_signal, scaffold_continuity_rebase_telemetry_v66,
    scaffold_topology_guided_contradiction_repair_v63_plan, select_phase63_repair_targets,
    Phase63RegionRole, Phase63RepairOperator, Phase63RepairTarget, Phase63RuntimeSummary,
};

fn recovery_constraints() -> Vec<SemanticConstraint> {
    vec![
        SemanticConstraint::assertion("anchor_alpha", "holds_shape", true, 91),
        SemanticConstraint::assertion("anchor_alpha", "rejects_drift", true, 88),
        SemanticConstraint::assertion("region_beta", "steady_support", true, 96),
        SemanticConstraint::assertion("region_beta", "bounded_change", true, 92),
        SemanticConstraint::assertion("region_gamma", "noisy_edge", false, 40),
    ]
}

#[test]
fn bridge_candidate_selects_highest_coherence_anchor_and_most_stable_region() {
    let config = Phase62StructuralConfig {
        enabled: true,
        kind: Phase62ExperimentKind::AnchorClosureSpineV1,
        max_bridge_constraints_per_subject: 1,
        bridge_weight: 6,
    };

    let (out, report) = scaffold_recovery_bridge_candidate_v1(
        &recovery_constraints(),
        config,
        "offset_stack_torsion_swap_recovery",
    );

    assert!(report.applied);
    assert_eq!(report.generated_constraints, 1);
    assert_eq!(out.len(), 6);
    let bridge = out
        .iter()
        .find(|constraint| constraint.predicate == PHASE62_RECOVERY_BRIDGE_PREDICATE)
        .expect("bridge candidate should be present");
    assert_eq!(bridge.subject, "region_beta");
    assert_eq!(bridge.object.as_deref(), Some("anchor_alpha"));
    assert_eq!(bridge.kind, ConstraintKind::Link);
}

#[test]
fn bridge_candidate_is_idempotent_once_present() {
    let mut constraints = recovery_constraints();
    constraints.push(SemanticConstraint {
        subject: "anchor_alpha".to_string(),
        predicate: PHASE62_RECOVERY_BRIDGE_PREDICATE.to_string(),
        object: Some("region_beta".to_string()),
        affirmed: true,
        kind: ConstraintKind::Link,
        weight: 6,
    });

    let config = Phase62StructuralConfig {
        enabled: true,
        kind: Phase62ExperimentKind::AnchorClosureSpineV1,
        max_bridge_constraints_per_subject: 1,
        bridge_weight: 6,
    };

    let (out, report) = scaffold_recovery_bridge_candidate_v1(
        &constraints,
        config,
        "offset_stack_torsion_swap_recovery",
    );

    assert_eq!(out, constraints);
    assert!(!report.applied);
    assert_eq!(report.generated_constraints, 0);
}

#[test]
fn v2_probe_targets_continuity_external_stressed_subject() {
    let config = Phase62StructuralConfig {
        enabled: true,
        kind: Phase62ExperimentKind::RegionMergeSplitStabilizationV1,
        max_bridge_constraints_per_subject: 2,
        bridge_weight: 6,
    };

    let (out, report) = scaffold_continuity_external_probe_v2(
        &recovery_constraints(),
        config,
        "offset_stack_torsion_swap_recovery",
    );

    assert!(report.applied);
    assert_eq!(report.generated_constraints, 2);
    let cohesion = out
        .iter()
        .find(|constraint| constraint.predicate == PHASE62_V2_REGION_COHESION_PREDICATE)
        .expect("v2 cohesion probe should be present");
    assert_eq!(cohesion.subject, "region_gamma");
    assert_eq!(cohesion.weight, 7);

    let dampen = out
        .iter()
        .find(|constraint| constraint.predicate == PHASE62_V2_EXTERNAL_DAMPEN_PREDICATE)
        .expect("v2 external dampening probe should be present");
    assert_eq!(dampen.subject, "region_gamma");
    assert_eq!(dampen.object.as_deref(), Some("region_beta"));
    assert_eq!(dampen.kind, ConstraintKind::Link);
}

#[test]
fn v2_probe_is_idempotent_once_present() {
    let mut constraints = recovery_constraints();
    constraints.push(SemanticConstraint::assertion(
        "region_gamma",
        PHASE62_V2_REGION_COHESION_PREDICATE,
        true,
        7,
    ));

    let config = Phase62StructuralConfig {
        enabled: true,
        kind: Phase62ExperimentKind::RegionMergeSplitStabilizationV1,
        max_bridge_constraints_per_subject: 2,
        bridge_weight: 6,
    };

    let (out, report) = scaffold_continuity_external_probe_v2(
        &constraints,
        config,
        "offset_stack_torsion_swap_recovery",
    );

    assert_eq!(out, constraints);
    assert!(!report.applied);
    assert_eq!(report.generated_constraints, 0);
}

#[test]
fn v2_plateau_probe_targets_mixed_continuity_subject_for_04_class_signature() {
    let constraints = vec![
        SemanticConstraint::assertion("region_beta", "continuity_hold", true, 8),
        SemanticConstraint::assertion("region_beta", "continuity_hold", false, 7),
        SemanticConstraint::assertion("region_gamma", "continuity_hold", true, 5),
        SemanticConstraint::assertion("region_gamma", "continuity_hold", false, 2),
        SemanticConstraint::assertion("anchor_alpha", "holds_shape", true, 9),
    ];

    let config = Phase62StructuralConfig {
        enabled: true,
        kind: Phase62ExperimentKind::ManifoldDriftSuppressionV1,
        max_bridge_constraints_per_subject: 2,
        bridge_weight: 6,
    };

    let (out, report) = scaffold_continuity_plateau_probe_v2(
        &constraints,
        config,
        "blind_regrasp_load_shift_recovery",
    );

    assert!(report.applied);
    assert_eq!(report.generated_constraints, 2);

    let lift = out
        .iter()
        .find(|constraint| constraint.predicate == PHASE62_V2_PLATEAU_CONTINUITY_LIFT_PREDICATE)
        .expect("plateau continuity lift probe should be present");
    assert_eq!(lift.subject, "region_beta");
    assert_eq!(lift.weight, 8);

    let reinforce = out
        .iter()
        .find(|constraint| constraint.predicate == PHASE62_V2_PLATEAU_ANCHOR_REINFORCEMENT_PREDICATE)
        .expect("plateau anchor reinforcement probe should be present");
    assert_eq!(reinforce.subject, "region_beta");
    assert_eq!(reinforce.object.as_deref(), Some("anchor_alpha"));
    assert_eq!(reinforce.weight, 7);
}

#[test]
fn v2_plateau_probe_is_idempotent_once_present() {
    let mut constraints = vec![
        SemanticConstraint::assertion("region_beta", "continuity_hold", true, 8),
        SemanticConstraint::assertion("region_beta", "continuity_hold", false, 7),
        SemanticConstraint::assertion("anchor_alpha", "holds_shape", true, 9),
    ];
    constraints.push(SemanticConstraint::assertion(
        "region_beta",
        PHASE62_V2_PLATEAU_CONTINUITY_LIFT_PREDICATE,
        true,
        8,
    ));

    let config = Phase62StructuralConfig {
        enabled: true,
        kind: Phase62ExperimentKind::ManifoldDriftSuppressionV1,
        max_bridge_constraints_per_subject: 2,
        bridge_weight: 6,
    };

    let (out, report) = scaffold_continuity_plateau_probe_v2(
        &constraints,
        config,
        "blind_regrasp_load_shift_recovery",
    );

    assert_eq!(out, constraints);
    assert!(!report.applied);
    assert_eq!(report.generated_constraints, 0);
}

#[test]
fn v2_plateau_probe_skips_non_04_class_signature_even_with_mixed_continuity() {
    let constraints = vec![
        SemanticConstraint::assertion("region_beta", "continuity_hold", true, 8),
        SemanticConstraint::assertion("region_beta", "continuity_hold", false, 7),
        SemanticConstraint::assertion("anchor_alpha", "holds_shape", true, 9),
    ];

    let config = Phase62StructuralConfig {
        enabled: true,
        kind: Phase62ExperimentKind::ManifoldDriftSuppressionV1,
        max_bridge_constraints_per_subject: 2,
        bridge_weight: 6,
    };

    let (out, report) = scaffold_continuity_plateau_probe_v2(
        &constraints,
        config,
        "counterweight_spiral_trip_recovery",
    );

    assert_eq!(out, constraints);
    assert!(!report.applied);
    assert_eq!(report.generated_constraints, 0);
    assert!(report.note.contains("not 04-class plateau signature"));
}

#[test]
fn v3_probe_targets_contradiction_dominated_recovery_subject() {
    let constraints = vec![
        SemanticConstraint::assertion("walking", "requires_support", true, 60),
        SemanticConstraint::assertion("walking", "requires_support", true, 50),
        SemanticConstraint::assertion("torso", "is_upright", false, 40),
        SemanticConstraint::assertion("fall_risk", "is_high", true, 62),
        SemanticConstraint::assertion("anchor_alpha", "holds_shape", true, 90),
    ];

    let config = Phase62StructuralConfig {
        enabled: true,
        kind: Phase62ExperimentKind::ContradictionReliefV1,
        max_bridge_constraints_per_subject: 2,
        bridge_weight: 6,
    };

    let (out, report) = scaffold_contradiction_relief_probe_v3(
        &constraints,
        config,
        "spiral_lurch_terrain_shear_recovery",
    );

    assert!(report.applied);
    assert_eq!(report.generated_constraints, 2);

    let relief = out
        .iter()
        .find(|constraint| constraint.predicate == PHASE62_V3_CONTRADICTION_RELIEF_PREDICATE)
        .expect("v3 contradiction relief probe should be present");
    assert_eq!(relief.subject, "walking");
    assert_eq!(relief.weight, 8);

    let rebinding = out
        .iter()
        .find(|constraint| constraint.predicate == PHASE62_V3_CONTINUITY_REBINDING_PREDICATE)
        .expect("v3 continuity rebinding probe should be present");
    assert_eq!(rebinding.subject, "walking");
    assert_eq!(rebinding.object.as_deref(), Some("anchor_alpha"));
    assert_eq!(rebinding.weight, 7);
}

#[test]
fn v3_probe_skips_non_02_class_signature() {
    let constraints = vec![
        SemanticConstraint::assertion("walking", "requires_support", true, 60),
        SemanticConstraint::assertion("walking", "requires_support", true, 50),
        SemanticConstraint::assertion("torso", "is_upright", false, 40),
        SemanticConstraint::assertion("fall_risk", "is_high", true, 62),
        SemanticConstraint::assertion("anchor_alpha", "holds_shape", true, 90),
    ];

    let config = Phase62StructuralConfig {
        enabled: true,
        kind: Phase62ExperimentKind::ContradictionReliefV1,
        max_bridge_constraints_per_subject: 2,
        bridge_weight: 6,
    };

    let (out, report) = scaffold_contradiction_relief_probe_v3(
        &constraints,
        config,
        "blind_regrasp_load_shift_recovery",
    );

    assert_eq!(out, constraints);
    assert!(!report.applied);
    assert_eq!(report.generated_constraints, 0);
    assert!(report.note.contains("not contradiction-dominated recovery signature"));
}

#[test]
fn v3_probe_is_idempotent_once_present() {
    let mut constraints = vec![
        SemanticConstraint::assertion("walking", "requires_support", true, 60),
        SemanticConstraint::assertion("walking", "requires_support", true, 50),
        SemanticConstraint::assertion("torso", "is_upright", false, 40),
        SemanticConstraint::assertion("fall_risk", "is_high", true, 62),
        SemanticConstraint::assertion("anchor_alpha", "holds_shape", true, 90),
    ];
    constraints.push(SemanticConstraint::assertion(
        "walking",
        PHASE62_V3_CONTRADICTION_RELIEF_PREDICATE,
        true,
        8,
    ));

    let config = Phase62StructuralConfig {
        enabled: true,
        kind: Phase62ExperimentKind::ContradictionReliefV1,
        max_bridge_constraints_per_subject: 2,
        bridge_weight: 6,
    };

    let (out, report) = scaffold_contradiction_relief_probe_v3(
        &constraints,
        config,
        "spiral_lurch_terrain_shear_recovery",
    );

    assert_eq!(out, constraints);
    assert!(!report.applied);
    assert_eq!(report.generated_constraints, 0);
}

#[test]
fn plateau_selector_targets_only_mixed_continuity_branch() {
    let constraints = vec![
        // Eligible mixed continuity: affirmed > 0 and contradicted > 0.
        SemanticConstraint::assertion("subject_mixed", "continuity_hold", true, 1),
        SemanticConstraint::assertion("subject_mixed", "continuity_hold", false, 1),
        // Contradictory-only: must be excluded.
        SemanticConstraint::assertion("subject_contradictory", "continuity_hold", false, 2),
        // Flat continuity: no continuity evidence, must be excluded.
        SemanticConstraint::assertion("subject_flat", "holds_shape", true, 3),
    ];

    let selected = select_continuity_plateau_subject(&constraints);
    assert_eq!(selected.as_deref(), Some("subject_mixed"));

    let contradictory_only = vec![SemanticConstraint::assertion(
        "subject_contradictory",
        "continuity_hold",
        false,
        2,
    )];
    assert_eq!(select_continuity_plateau_subject(&contradictory_only), None);

    let flat_only = vec![SemanticConstraint::assertion(
        "subject_flat",
        "holds_shape",
        true,
        3,
    )];
    assert_eq!(select_continuity_plateau_subject(&flat_only), None);
}

#[test]
fn plateau_selector_excludes_net_contradictory_mixed_subject() {
    let constraints = vec![
        // Net-contradictory mixed: excluded (pos < neg).
        SemanticConstraint::assertion("subject_bad_mixed", "continuity_hold", true, 1),
        SemanticConstraint::assertion("subject_bad_mixed", "continuity_hold", false, 2),
        // Net-non-contradictory mixed: eligible fallback.
        SemanticConstraint::assertion("subject_good_mixed", "continuity_hold", true, 2),
        SemanticConstraint::assertion("subject_good_mixed", "continuity_hold", false, 1),
    ];

    let selected = select_continuity_plateau_subject(&constraints);
    assert_eq!(selected.as_deref(), Some("subject_good_mixed"));
}

#[test]
fn contradiction_signature_helper_detects_lurch_shear_pressure() {
    let constraints = vec![
        SemanticConstraint::assertion("region_beta", "continuity_hold", true, 8),
        SemanticConstraint::assertion("region_beta", "continuity_hold", false, 7),
        SemanticConstraint::assertion("fall_risk", "is_high", true, 62),
        SemanticConstraint::assertion("walking", "requires_support", true, 60),
        SemanticConstraint::assertion("anchor_alpha", "holds_shape", true, 9),
    ];

    assert!(target_has_hard_contradiction_signature(
        &constraints,
        "spiral_lurch_terrain_shear_recovery",
    ));
}

#[test]
fn v3b_branch_classifier_separates_ready_from_deficit_regimes() {
    let ready = Phase62RuntimeSummary {
        continuity_before: 198,
        continuity_after_pre: 198,
        regions_before: 64,
        regions_after_pre: 64,
        anchors_before: 115,
        anchors_after_pre: 122,
        external_before: 10,
        external_after_pre: 0,
        support_signal: 30,
        contradiction_signal: 42,
    };
    let deficit = Phase62RuntimeSummary {
        continuity_before: 198,
        continuity_after_pre: 196,
        regions_before: 58,
        regions_after_pre: 58,
        anchors_before: 74,
        anchors_after_pre: 81,
        external_before: 0,
        external_after_pre: 10,
        support_signal: 36,
        contradiction_signal: 38,
    };

    assert_eq!(
        classify_v3b_branch(ready, 162, 110),
        Some(Phase62V3Branch::ClosureReadyContradictionRelief)
    );
    assert_eq!(
        classify_v3b_branch(deficit, 162, 110),
        Some(Phase62V3Branch::ClosureDeficitClosureRepair)
    );
}

#[test]
fn v3b_probe_uses_closure_repair_branch_for_low_basin_stagnation() {
    let summary = Some(Phase62RuntimeSummary {
        continuity_before: 198,
        continuity_after_pre: 196,
        regions_before: 58,
        regions_after_pre: 58,
        anchors_before: 74,
        anchors_after_pre: 81,
        external_before: 0,
        external_after_pre: 10,
        support_signal: 36,
        contradiction_signal: 38,
    });
    let constraints = vec![
        SemanticConstraint::assertion("walking", "requires_support", true, 60),
        SemanticConstraint::assertion("walking", "requires_support", true, 40),
        SemanticConstraint::assertion("walking", "continuity_hold", false, 55),
        SemanticConstraint::assertion("torso", "is_upright", false, 40),
        SemanticConstraint::assertion("fall_risk", "is_high", true, 62),
        SemanticConstraint::assertion("region_beta", "steady_support", true, 96),
        SemanticConstraint::assertion("region_beta", "bounded_change", true, 92),
        SemanticConstraint::assertion("anchor_alpha", "holds_shape", true, 90),
    ];

    let config = Phase62StructuralConfig {
        enabled: true,
        kind: Phase62ExperimentKind::ContradictionClosureRegimeV2,
        max_bridge_constraints_per_subject: 2,
        bridge_weight: 6,
    };

    let (out, report, _branch) = scaffold_contradiction_closure_probe_v3b(
        &constraints,
        config,
        "spiral_lurch_terrain_shear_recovery",
        summary,
    );

    assert!(report.applied);
    assert!(report.note.contains("branch=closure_deficit"));

    let relief = out
        .iter()
        .find(|constraint| constraint.predicate == PHASE62_V3_CONTRADICTION_RELIEF_PREDICATE)
        .expect("v3b contradiction relief probe should be present");
    assert_eq!(relief.subject, "walking");

    let repair = out
        .iter()
        .find(|constraint| constraint.predicate == PHASE62_V3B_CLOSURE_REGION_REPAIR_PREDICATE)
        .expect("v3b closure repair probe should be present");
    assert_eq!(repair.subject, "walking");
    assert_eq!(repair.object.as_deref(), Some("region_beta"));
}

#[test]
fn phase63_learned_surface_selects_expanded_operators_for_success_bands() {
    let closure_bridge = Phase63RepairTarget {
        region_id: "walking".to_string(),
        role: Phase63RegionRole::Bridge,
        contradiction_pressure: 154,
        closure_deficit_index: 118,
        operator: Phase63RepairOperator::ClosureBridge,
    };
    let redirect = Phase63RepairTarget {
        region_id: "walking".to_string(),
        role: Phase63RegionRole::Bridge,
        contradiction_pressure: 118,
        closure_deficit_index: 109,
        operator: Phase63RepairOperator::ContradictionRedirect,
    };
    let reweight = Phase63RepairTarget {
        region_id: "stacking".to_string(),
        role: Phase63RegionRole::Bridge,
        contradiction_pressure: 115,
        closure_deficit_index: 78,
        operator: Phase63RepairOperator::AnchorReweight,
    };
    let dampen = Phase63RepairTarget {
        region_id: "walking".to_string(),
        role: Phase63RegionRole::Bridge,
        contradiction_pressure: 127,
        closure_deficit_index: 71,
        operator: Phase63RepairOperator::BoundaryDampen,
    };

    assert_eq!(
        closure_bridge.operator,
        Phase63RepairOperator::ClosureBridge
    );
    assert_eq!(redirect.operator, Phase63RepairOperator::ContradictionRedirect);
    assert_eq!(reweight.operator, Phase63RepairOperator::AnchorReweight);
    assert_eq!(dampen.operator, Phase63RepairOperator::BoundaryDampen);
}

#[test]
fn v3b_probe_uses_rebinding_branch_for_closure_ready_regime() {
    let summary = Some(Phase62RuntimeSummary {
        continuity_before: 198,
        continuity_after_pre: 198,
        regions_before: 64,
        regions_after_pre: 64,
        anchors_before: 115,
        anchors_after_pre: 122,
        external_before: 10,
        external_after_pre: 0,
        support_signal: 30,
        contradiction_signal: 42,
    });
    let constraints = vec![
        SemanticConstraint::assertion("walking", "requires_support", true, 60),
        SemanticConstraint::assertion("walking", "requires_support", true, 50),
        SemanticConstraint::assertion("torso", "is_upright", false, 40),
        SemanticConstraint::assertion("fall_risk", "is_high", true, 62),
        SemanticConstraint::assertion("anchor_alpha", "holds_shape", true, 90),
    ];

    let config = Phase62StructuralConfig {
        enabled: true,
        kind: Phase62ExperimentKind::ContradictionClosureRegimeV2,
        max_bridge_constraints_per_subject: 2,
        bridge_weight: 6,
    };

    let (out, report, _branch) = scaffold_contradiction_closure_probe_v3b(
        &constraints,
        config,
        "offset_stack_torsion_swap_recovery",
        summary,
    );

    assert!(report.applied);
    assert!(report.note.contains("branch=closure_ready"));

    let rebinding = out
        .iter()
        .find(|constraint| constraint.predicate == PHASE62_V3_CONTINUITY_REBINDING_PREDICATE)
        .expect("v3b continuity rebinding probe should be present");
    assert_eq!(rebinding.subject, "walking");
    assert_eq!(rebinding.object.as_deref(), Some("anchor_alpha"));
}

#[test]
fn phase63_selects_boundary_bridge_targets_for_closure_deficit_fixture() {
    let summary = Phase63RuntimeSummary {
        holdout_id: "holdout_02_recovery".to_string(),
        continuity_pre: 200,
        continuity_post: 198,
        external_pre: 0,
        external_post: 10,
        regions_pre: 60,
        regions_post: 60,
        anchors_pre: 70,
        anchors_post: 72,
        support_signal: 36,
        contradiction_signal: 42,
    };
    let constraints = vec![
        SemanticConstraint::assertion("boundary_zone", "edge_contradiction", false, 30),
        SemanticConstraint::assertion("bridge_zone", "requires_support", true, 40),
        SemanticConstraint::assertion("bridge_zone", "bridge_alignment", true, 18),
        SemanticConstraint::assertion("core_zone", "holds_shape", true, 12),
    ];

    let targets = select_phase63_repair_targets(&constraints, &summary, "closure_deficit");
    assert!(!targets.is_empty());
    assert!(targets.iter().any(|t| {
        matches!(t.role, Phase63RegionRole::Boundary | Phase63RegionRole::Bridge)
    }));
    let mut sorted = targets.clone();
    sorted.sort_by(|a, b| a.region_id.cmp(&b.region_id));
    assert_eq!(targets, sorted);
}

#[test]
fn phase63_repair_plan_is_replay_stable_for_identical_summary() {
    let summary = Phase63RuntimeSummary {
        holdout_id: "holdout_02_recovery".to_string(),
        continuity_pre: 200,
        continuity_post: 198,
        external_pre: 0,
        external_post: 10,
        regions_pre: 60,
        regions_post: 60,
        anchors_pre: 70,
        anchors_post: 72,
        support_signal: 36,
        contradiction_signal: 42,
    };
    let constraints = vec![
        SemanticConstraint::assertion("boundary_zone", "edge_contradiction", false, 30),
        SemanticConstraint::assertion("bridge_zone", "requires_support", true, 40),
        SemanticConstraint::assertion("bridge_zone", "bridge_alignment", true, 18),
        SemanticConstraint::assertion("core_zone", "holds_shape", true, 12),
    ];

    let plan_a = scaffold_topology_guided_contradiction_repair_v63_plan(
        select_phase63_repair_targets(&constraints, &summary, "closure_deficit"),
    );
    let plan_b = scaffold_topology_guided_contradiction_repair_v63_plan(
        select_phase63_repair_targets(&constraints, &summary, "closure_deficit"),
    );
    assert_eq!(plan_a, plan_b);
}

#[test]
fn phase63_forces_two_step_sequence_for_stubborn_closure_deficit_signatures() {
    let walking_summary = Phase63RuntimeSummary {
        holdout_id: "holdout_02_recovery".to_string(),
        continuity_pre: 200,
        continuity_post: 200,
        external_pre: 0,
        external_post: 10,
        regions_pre: 60,
        regions_post: 60,
        anchors_pre: 70,
        anchors_post: 72,
        support_signal: 36,
        contradiction_signal: 42,
    };
    let walking_constraints = vec![
        SemanticConstraint::assertion("walking", "requires_support", true, 60),
        SemanticConstraint::assertion("walking", "requires_support", true, 40),
        SemanticConstraint::assertion("walking", "continuity_hold", false, 27),
        SemanticConstraint::assertion("walking", "bridge_alignment", true, 18),
        SemanticConstraint::assertion("torso", "is_upright", false, 40),
    ];

    let walking_targets = select_phase63_repair_targets(
        &walking_constraints,
        &walking_summary,
        "closure_deficit",
    );
    assert_eq!(walking_targets.len(), 2);
    assert_eq!(walking_targets[0].operator, Phase63RepairOperator::ClosureBridge);
    assert_eq!(walking_targets[1].operator, Phase63RepairOperator::AnchorReweight);

    let stacking_summary = Phase63RuntimeSummary {
        holdout_id: "holdout_04_recovery".to_string(),
        continuity_pre: 198,
        continuity_post: 198,
        external_pre: 0,
        external_post: 10,
        regions_pre: 58,
        regions_post: 58,
        anchors_pre: 74,
        anchors_post: 81,
        support_signal: 36,
        contradiction_signal: 38,
    };
    let stacking_constraints = vec![
        SemanticConstraint::assertion("stacking", "requires_support", true, 70),
        SemanticConstraint::assertion("stacking", "requires_support", true, 53),
        SemanticConstraint::assertion("stacking", "bridge_alignment", true, 30),
        SemanticConstraint::assertion("core_zone", "holds_shape", true, 12),
    ];

    let stacking_targets = select_phase63_repair_targets(
        &stacking_constraints,
        &stacking_summary,
        "closure_deficit",
    );
    assert_eq!(stacking_targets.len(), 2);
    assert_eq!(stacking_targets[0].operator, Phase63RepairOperator::ClosureBridge);
    assert_eq!(stacking_targets[1].operator, Phase63RepairOperator::AnchorReweight);
}

#[test]
fn phase63_closure_deficit_adds_deterministic_follow_on_operators() {
    let summary = Phase63RuntimeSummary {
        holdout_id: "holdout_02_recovery".to_string(),
        continuity_pre: 200,
        continuity_post: 200,
        external_pre: 0,
        external_post: 0,
        regions_pre: 60,
        regions_post: 60,
        anchors_pre: 70,
        anchors_post: 72,
        support_signal: 36,
        contradiction_signal: 42,
    };
    let base_targets = vec![
        Phase63RepairTarget {
            region_id: "walking".to_string(),
            role: Phase63RegionRole::Bridge,
            contradiction_pressure: 120,
            closure_deficit_index: 110,
            operator: Phase63RepairOperator::ClosureBridge,
        },
        Phase63RepairTarget {
            region_id: "stacking".to_string(),
            role: Phase63RegionRole::Bridge,
            contradiction_pressure: 118,
            closure_deficit_index: 108,
            operator: Phase63RepairOperator::ContradictionRedirect,
        },
        Phase63RepairTarget {
            region_id: "counterweight".to_string(),
            role: Phase63RegionRole::Bridge,
            contradiction_pressure: 116,
            closure_deficit_index: 106,
            operator: Phase63RepairOperator::AnchorReweight,
        },
    ];

    let expanded_a = phase63_expand_closure_deficit_follow_on_targets(
        base_targets.clone(),
        &summary,
        "closure_deficit",
    );
    let expanded_b = phase63_expand_closure_deficit_follow_on_targets(
        base_targets,
        &summary,
        "closure_deficit",
    );

    assert_eq!(expanded_a, expanded_b);
    assert!(expanded_a.iter().any(|target| {
        target.region_id == "walking"
            && target.operator == Phase63RepairOperator::AnchorReweight
    }));
    assert!(expanded_a.iter().any(|target| {
        target.region_id == "stacking"
            && target.operator == Phase63RepairOperator::ClosureBridge
    }));
    assert!(expanded_a.iter().any(|target| {
        target.region_id == "counterweight"
            && target.operator == Phase63RepairOperator::ClosureBridge
    }));
}

#[test]
fn phase63_supervisor_maps_rebased_signal_to_bridge_operator_bands() {
    assert_eq!(
        phase63_operator_from_rebased_signal(-4, "closure_deficit"),
        Some(Phase63RepairOperator::ContradictionRedirect)
    );
    assert_eq!(
        phase63_operator_from_rebased_signal(-2, "closure_deficit"),
        Some(Phase63RepairOperator::ClosureBridge)
    );
    assert_eq!(
        phase63_operator_from_rebased_signal(0, "closure_deficit"),
        Some(Phase63RepairOperator::ClosureBridge)
    );
    assert_eq!(phase63_operator_from_rebased_signal(1, "closure_deficit"), None);
    assert_eq!(phase63_operator_from_rebased_signal(-4, "closure_ready"), None);
}

#[test]
fn phase66_telemetry_scaffold_is_noop_and_replay_stable() {
    let summary = Some(Phase62RuntimeSummary {
        continuity_before: 199,
        continuity_after_pre: 199,
        regions_before: 61,
        regions_after_pre: 63,
        anchors_before: 82,
        anchors_after_pre: 86,
        external_before: 10,
        external_after_pre: 10,
        support_signal: 36,
        contradiction_signal: 42,
    });

    let constraints = vec![
        SemanticConstraint::assertion("walking", "requires_support", true, 60),
        SemanticConstraint::assertion("region_beta", "steady_support", true, 50),
    ];

    let (out_a, report_a, published_a) = scaffold_continuity_rebase_telemetry_v66(
        &constraints,
        "spiral_lurch_terrain_shear_recovery",
        summary,
        &None,
    );
    let line_a = published_a
        .iter()
        .find(|(name, _)| name == "GORT_PHASE66_TELEMETRY")
        .map(|(_, value)| value.clone())
        .expect("phase66 telemetry should be emitted on first pass");

    let (out_b, report_b, published_b) = scaffold_continuity_rebase_telemetry_v66(
        &constraints,
        "spiral_lurch_terrain_shear_recovery",
        summary,
        &None,
    );
    let line_b = published_b
        .iter()
        .find(|(name, _)| name == "GORT_PHASE66_TELEMETRY")
        .map(|(_, value)| value.clone())
        .expect("phase66 telemetry should be emitted on second pass");

    assert_eq!(out_a, constraints);
    assert_eq!(out_b, constraints);
    assert!(!report_a.applied);
    assert!(!report_b.applied);
    assert_eq!(report_a.generated_constraints, 0);
    assert_eq!(report_b.generated_constraints, 0);
    assert!(report_a.note.contains("telemetry emitted"));
    assert!(line_a.contains("mode=telemetry_only"));
    assert!(line_a.contains("holdout_id=spiral_lurch_terrain_shear_recovery"));
    assert!(line_a.contains("continuity_rebased="));
    assert_eq!(line_a, line_b);
}

// ── further cases ────────────────────────────────────────────────────────────

fn enabled(kind: Phase62ExperimentKind, max: usize) -> Phase62StructuralConfig {
    Phase62StructuralConfig {
        enabled: true,
        kind,
        max_bridge_constraints_per_subject: max,
        bridge_weight: 6,
    }
}

fn environment(target: Option<&str>, runtime: Option<Phase62RuntimeSummary>) -> Phase62Environment {
    Phase62Environment {
        target_novelty: target.map(|t| t.to_string()),
        runtime_summary: runtime,
        escalation_handoff: None,
        canonical_target: None,
        canonical_plan: None,
        canonical_regime: None,
    }
}

#[test]
fn experiment_plan_lists_primary_and_follow_ons() {
    let plan = Phase62ExperimentPlan::new();
    assert_eq!(plan.primary, Phase62ExperimentKind::AnchorClosureSpineV1);
    assert_eq!(
        plan.follow_ons,
        [
            Phase62ExperimentKind::RegionMergeSplitStabilizationV1,
            Phase62ExperimentKind::ManifoldDriftSuppressionV1,
            Phase62ExperimentKind::ContradictionReliefV1,
            Phase62ExperimentKind::ContradictionClosureRegimeV2,
        ]
    );
}

#[test]
fn disabled_experiment_leaves_constraints_alone() {
    let constraints = recovery_constraints();
    let out = apply_phase62_structural_experiment(
        &constraints,
        Phase62StructuralConfig::default(),
        &environment(Some("x_recovery"), None),
    );
    assert_eq!(out.constraints, constraints);
    assert!(!out.report.applied);
    assert_eq!(out.report.note, "phase62 scaffold disabled");
    assert!(out.assignments.is_empty());
}

#[test]
fn non_recovery_target_is_skipped() {
    let constraints = recovery_constraints();
    let out = apply_phase62_structural_experiment(
        &constraints,
        enabled(Phase62ExperimentKind::AnchorClosureSpineV1, 1),
        &environment(Some("  holdout_07  "), None),
    );
    assert_eq!(out.constraints, constraints);
    assert_eq!(out.report.note, "phase62 scaffold skipped for non-recovery target holdout_07");
}

#[test]
fn spine_without_target_adds_candidates_for_first_subjects() {
    let constraints = recovery_constraints();
    let out = apply_phase62_structural_experiment(
        &constraints,
        enabled(Phase62ExperimentKind::AnchorClosureSpineV1, 2),
        &environment(None, None),
    );
    assert!(out.report.applied);
    assert_eq!(out.report.generated_constraints, 2);
    assert_eq!(out.constraints.len(), 7);
    assert_eq!(out.constraints[5].subject, "anchor_alpha");
    assert_eq!(out.constraints[5].predicate, "phase62/anchor_closure_spine_candidate");
    assert_eq!(out.constraints[6].subject, "region_beta");
    let (direct, report) = scaffold_anchor_closure_spine_v1(&constraints, enabled(Phase62ExperimentKind::AnchorClosureSpineV1, 0));
    assert_eq!(report.generated_constraints, 1);
    assert_eq!(direct.len(), 6);
}

#[test]
fn recovery_target_routes_anchor_spine_to_bridge_candidate() {
    let constraints = recovery_constraints();
    let out = apply_phase62_structural_experiment(
        &constraints,
        enabled(Phase62ExperimentKind::AnchorClosureSpineV1, 1),
        &environment(Some("offset_stack_torsion_swap_recovery"), None),
    );
    assert_eq!(
        out.report.note,
        "phase62 recovery bridge region_beta -> anchor_alpha for target offset_stack_torsion_swap_recovery"
    );
}

#[test]
fn v3b_reports_branch_telemetry() {
    let constraints = vec![
        SemanticConstraint::assertion("walking", "requires_support", true, 60),
        SemanticConstraint::assertion("walking", "requires_support", true, 50),
        SemanticConstraint::assertion("torso", "is_upright", false, 40),
        SemanticConstraint::assertion("fall_risk", "is_high", true, 62),
        SemanticConstraint::assertion("anchor_alpha", "holds_shape", true, 90),
    ];
    let config = enabled(Phase62ExperimentKind::ContradictionClosureRegimeV2, 2);
    let (_, report, branch) =
        scaffold_contradiction_closure_probe_v3b(&constraints, config, "x_recovery", None);
    assert!(!report.applied);
    assert_eq!(branch, "skipped/missing_runtime_summary");
    let ready = Phase62RuntimeSummary {
        continuity_before: 198,
        continuity_after_pre: 198,
        regions_before: 64,
        regions_after_pre: 64,
        anchors_before: 115,
        anchors_after_pre: 122,
        external_before: 10,
        external_after_pre: 0,
        support_signal: 30,
        contradiction_signal: 42,
    };
    let out = apply_phase62_structural_experiment(&constraints, config, &environment(Some("x_recovery"), Some(ready)));
    assert_eq!(
        out.assignments,
        vec![("GORT_PHASE62_V3B_BRANCH".to_string(), "closure_ready".to_string())]
    );
    assert_eq!(
        out.report.note,
        "phase62 v3b contradiction/closure probe branch=closure_ready subject=walking anchor=anchor_alpha continuity=198=>198 regions=64=>64 anchors=115=>122 external=10=>0 for target x_recovery"
    );
    assert_eq!(classify_v3b_branch(ready, 119, 110), None);
    assert_eq!(classify_v3b_branch(ready, 162, 110), Some(Phase62V3Branch::ClosureReadyContradictionRelief));
}

#[test]
fn repair_plan_application_adds_operator_and_reinforcement() {
    let summary = Phase63RuntimeSummary {
        holdout_id: "holdout_02_recovery".to_string(),
        continuity_pre: 200,
        continuity_post: 198,
        external_pre: 0,
        external_post: 10,
        regions_pre: 60,
        regions_post: 60,
        anchors_pre: 70,
        anchors_post: 72,
        support_signal: 36,
        contradiction_signal: 42,
    };
    let constraints = vec![
        SemanticConstraint::assertion("boundary_zone", "edge_contradiction", false, 30),
        SemanticConstraint::assertion("core_zone", "holds_shape", true, 12),
    ];
    let plan = scaffold_topology_guided_contradiction_repair_v63_plan(vec![Phase63RepairTarget {
        region_id: "boundary_zone".to_string(),
        role: Phase63RegionRole::Boundary,
        contradiction_pressure: 30,
        closure_deficit_index: 97,
        operator: Phase63RepairOperator::BoundaryDampen,
    }]);
    let config = enabled(Phase62ExperimentKind::TopologyGuidedContradictionRepairV3, 1);
    let (out, applied) = apply_phase63_repair_plan(&constraints, config, &plan, "closure_deficit", &summary);
    assert_eq!(applied, 1);
    assert_eq!(out.len(), 4);
    assert_eq!(out[2].predicate, "phase63/topology_boundary_dampen");
    assert_eq!(out[2].weight, 8);
    assert_eq!(out[3].predicate, "phase63/closure_energy_reinforce");
    assert_eq!(out[3].weight, 9);
    let (again, applied_again) = apply_phase63_repair_plan(&out, config, &plan, "closure_deficit", &summary);
    assert_eq!(applied_again, 0);
    assert_eq!(again, out);
}

#[test]
fn topology_repair_publishes_and_caches_canonical_plan() {
    let runtime = Phase62RuntimeSummary {
        continuity_before: 200,
        continuity_after_pre: 198,
        regions_before: 60,
        regions_after_pre: 60,
        anchors_before: 70,
        anchors_after_pre: 72,
        external_before: 0,
        external_after_pre: 10,
        support_signal: 36,
        contradiction_signal: 42,
    };
    let constraints = vec![
        SemanticConstraint::assertion("boundary_zone", "edge_contradiction", false, 30),
        SemanticConstraint::assertion("bridge_zone", "requires_support", true, 40),
        SemanticConstraint::assertion("bridge_zone", "bridge_alignment", true, 18),
        SemanticConstraint::assertion("core_zone", "holds_shape", true, 12),
    ];
    let config = enabled(Phase62ExperimentKind::TopologyGuidedContradictionRepairV3, 2);
    let env = environment(Some("holdout_02_recovery"), Some(runtime));
    let first = apply_phase62_structural_experiment(&constraints, config, &env);
    let names: Vec<&str> = first.assignments.iter().map(|(n, _)| n.as_str()).collect();
    assert_eq!(
        names,
        vec![
            "GORT_PHASE63_CANONICAL_TARGET",
            "GORT_PHASE63_CANONICAL_REGIME",
            "GORT_PHASE63_PLAN",
            "GORT_PHASE63_TELEMETRY",
            "GORT_PHASE63_DIAGNOSTIC",
            "GORT_PHASE63_REGIME",
        ]
    );
    assert_eq!(first.assignments[1].1, "closure_deficit");
    let plan = first.canonical_plan.clone().expect("canonical plan stored");
    assert!(!plan.targets.is_empty());
    assert!(first.report.applied);

    let mut cached = env.clone();
    cached.canonical_target = Some("holdout_02_recovery".to_string());
    cached.canonical_plan = Some(plan.clone());
    cached.canonical_regime = Some("closure_deficit".to_string());
    let second = apply_phase62_structural_experiment(&constraints, config, &cached);
    assert!(second.canonical_plan.is_none());
    assert_eq!(second.assignments.len(), 4);
    assert_eq!(second.constraints, first.constraints);
    assert_eq!(second.report.note, first.report.note);

    let missing = apply_phase62_structural_experiment(&constraints, config, &environment(Some("holdout_02_recovery"), None));
    assert_eq!(
        missing.report.note,
        "phase63 topology repair skipped for target holdout_02_recovery: missing runtime summary"
    );
    assert_eq!(missing.assignments[3], ("GORT_PHASE63_REGIME".to_string(), "unknown".to_string()));
}

#[test]
fn rebase_telemetry_reports_exact_terms() {
    let runtime = Phase62RuntimeSummary {
        continuity_before: 199,
        continuity_after_pre: 199,
        regions_before: 61,
        regions_after_pre: 63,
        anchors_before: 82,
        anchors_after_pre: 86,
        external_before: 10,
        external_after_pre: 10,
        support_signal: 36,
        contradiction_signal: 42,
    };
    let (_, _, published) = scaffold_continuity_rebase_telemetry_v66(
        &[],
        "h_recovery",
        Some(runtime),
        &Some(" YES ".to_string()),
    );
    // ratio = 42_000_000 / 36 = 1_166_666; penalty = 4_666_664 / 1_000_000 = 4;
    // rebased = 0 - 4 + 2 * 2 + 4 = 4
    assert!(published[0].1.contains(" contradiction_pressure_ratio_ppm=1166666 contradiction_penalty=4 region_reward=4 anchor_reward=4 continuity_rebased=4 escalation_handoff=true"));
    assert_eq!(
        published[1].1,
        "holdout_id=h_recovery phase67_escalation_marker_in=true phase67_semantic_context=empty phase67_ready=true"
    );
}

#[test]
fn environment_check_accepts_ordinary_summaries_and_refuses_overflowing_ones() {
    let config = enabled(Phase62ExperimentKind::TopologyGuidedContradictionRepairV3, 2);
    let rt = Phase62RuntimeSummary {
        continuity_before: 200,
        continuity_after_pre: 190,
        regions_before: 60,
        regions_after_pre: 55,
        anchors_before: 12,
        anchors_after_pre: 12,
        external_before: -4,
        external_after_pre: 3,
        support_signal: 90,
        contradiction_signal: 140,
    };
    let s = recovery_constraints();
    assert!(phase62_environment_fits(&s, config, &environment(None, None)));
    assert!(phase62_environment_fits(&s, config, &environment(None, Some(rt))));
    let loud = Phase62RuntimeSummary { contradiction_signal: 501, ..rt };
    assert!(phase62_environment_fits(&s, config, &environment(None, Some(loud))));
    let louder = Phase62RuntimeSummary { contradiction_signal: 3000, ..rt };
    assert!(!phase62_environment_fits(&s, config, &environment(None, Some(louder))));
    let wide = Phase62RuntimeSummary { continuity_before: i64::MIN, continuity_after_pre: 1, ..rt };
    assert!(!phase62_environment_fits(&s, config, &environment(None, Some(wide))));
}
