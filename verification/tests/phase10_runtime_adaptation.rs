use gort::cognition::phase10_runtime_adaptation::{
    phase10_operator_runtime_integration_telemetry_line, phase10_runtime_adaptation_telemetry_line,
    phase10_slice7_multicycle_telemetry_line, phase10_top_level_acceptance_telemetry_line,
    phase10_validate_runtime_continuity_preservation, phase10_validate_slice2_routing_acceptance_gate,
    phase11_multi_loop_convergence_telemetry_line, Phase10OperatorRuntimeIntegration,
    Phase10OperatorWeightedFrameTransition, Phase10RuntimeAdaptationBridge,
    Phase10Slice2RoutingAcceptancePolicy, Phase10Slice4RuntimeContinuityPolicy,
    Phase10Slice7MultiCycleReplayAcceptanceStage, Phase10TopLevelAcceptanceStage,
    Phase11MultiLoopConvergenceStage, Phase70AdjustmentLog, Phase70AdjustmentLogEntry,
};
use gort::cognition::phase90_geometry_driven_adjustment_operators::Phase90GeometryDrivenAdjustmentPlan;

fn plan(operator_count: usize) -> Phase90GeometryDrivenAdjustmentPlan {
    Phase90GeometryDrivenAdjustmentPlan {
        manifold_signature: "manifold".to_string(),
        operator_count,
        dominant_operator_kind: "stabilize".to_string(),
        aggregate_adjustment_pressure_percent: 60,
        operators: Vec::new(),
        operator_plan_signature: "plan-sig".to_string(),
        operator_plan_hash: "plan-hash".to_string(),
        operator_plan_well_formed: true,
    }
}

fn entry(sequence: u64, parameter: &str, delta: i32) -> Phase70AdjustmentLogEntry {
    Phase70AdjustmentLogEntry {
        sequence,
        holdout_id: format!("phase10_shape{}_to_{}", sequence, sequence + 1),
        parameter_name: parameter.to_string(),
        semantic_context_used: "stabilize".to_string(),
        adjustment_applied: delta != 0,
        pre_value: 0,
        post_value: delta,
        delta,
        inverse_delta: -delta,
    }
}

fn bridge(routed: &[&str], deltas: &[i32]) -> Phase10RuntimeAdaptationBridge {
    let entries: Vec<Phase70AdjustmentLogEntry> = deltas
        .iter()
        .enumerate()
        .map(|(i, d)| entry(i as u64 + 1, routed[i % routed.len()], *d))
        .collect();
    Phase10RuntimeAdaptationBridge {
        manifold_signature: "manifold".to_string(),
        operator_plan_hash: "plan-hash".to_string(),
        adapted_entry_count: entries.len(),
        aggregate_applied_delta: deltas.iter().sum(),
        routed_parameter_count: routed.len(),
        routed_parameter_names: routed.iter().map(|r| r.to_string()).collect(),
        adaptation_log: Phase70AdjustmentLog { entries },
        adaptation_signature: "adaptation-sig".to_string(),
        adaptation_profile_hash: "adaptation-hash".to_string(),
        adaptation_well_formed: true,
    }
}

fn transition(weight: u8) -> Phase10OperatorWeightedFrameTransition {
    Phase10OperatorWeightedFrameTransition {
        from_frame_id: "f0".to_string(),
        to_frame_id: "f1".to_string(),
        entry_allowed: true,
        exit_allowed: true,
        continuity_preserved: true,
        transition_reason: format!("sequenced|operator_kind=stabilize|operator_weight={}", weight),
        operator_kind: "stabilize".to_string(),
        operator_weight_percent: weight,
    }
}

fn integration(ts: Vec<Phase10OperatorWeightedFrameTransition>) -> Phase10OperatorRuntimeIntegration {
    Phase10OperatorRuntimeIntegration {
        operator_plan_hash: "plan-hash".to_string(),
        adaptation_profile_hash: "adaptation-hash".to_string(),
        weighted_transition_count: ts.len(),
        aggregate_operator_weight_percent: 55,
        weighted_transitions: ts,
        integration_signature: "integration-sig".to_string(),
        integration_profile_hash: "integration-hash".to_string(),
        integration_well_formed: true,
    }
}

#[test]
fn canonical_policies_have_their_thresholds() {
    let slice2 = Phase10Slice2RoutingAcceptancePolicy::canonical();
    assert_eq!(slice2.min_operator_count_threshold, 3);
    assert_eq!(slice2.min_routed_parameter_diversity, 2);
    let slice4 = Phase10Slice4RuntimeContinuityPolicy::canonical();
    assert_eq!(slice4.min_operator_weight_percent, 40);
    assert_eq!(slice4.max_operator_weight_percent, 100);
    assert_eq!(slice4.max_runtime_delta_per_transition, 1);
}

#[test]
fn routing_gate_enforces_diversity_above_threshold() {
    let policy = Phase10Slice2RoutingAcceptancePolicy::canonical();
    let err = phase10_validate_slice2_routing_acceptance_gate(&plan(3), &bridge(&["alpha"], &[1, 0, 1]), &policy)
        .unwrap_err();
    assert_eq!(
        err,
        "slice2 acceptance failed: routed parameter diversity 1 below required 2 when operator_count=3 (threshold=3)"
    );
    phase10_validate_slice2_routing_acceptance_gate(&plan(3), &bridge(&["alpha", "beta"], &[1, 0, 1]), &policy)
        .expect("diverse routing passes");
}

#[test]
fn routing_gate_bypasses_diversity_below_threshold() {
    let policy = Phase10Slice2RoutingAcceptancePolicy::canonical();
    phase10_validate_slice2_routing_acceptance_gate(&plan(2), &bridge(&["alpha"], &[1, 1]), &policy)
        .expect("small plans need no diversity");
}

#[test]
fn routing_gate_rejects_bad_policy_malformed_bridge_and_hash_mismatch() {
    let zero = Phase10Slice2RoutingAcceptancePolicy { min_operator_count_threshold: 3, min_routed_parameter_diversity: 0 };
    assert_eq!(
        phase10_validate_slice2_routing_acceptance_gate(&plan(3), &bridge(&["alpha"], &[1]), &zero).unwrap_err(),
        "invalid slice2 policy: min_routed_parameter_diversity must be >= 1"
    );
    let policy = Phase10Slice2RoutingAcceptancePolicy::canonical();
    let mut malformed = bridge(&["alpha", "beta"], &[1]);
    malformed.adaptation_well_formed = false;
    assert_eq!(
        phase10_validate_slice2_routing_acceptance_gate(&plan(3), &malformed, &policy).unwrap_err(),
        "slice2 acceptance failed: adaptation bridge is not well formed"
    );
    let mut other = bridge(&["alpha", "beta"], &[1]);
    other.operator_plan_hash = "other".to_string();
    assert_eq!(
        phase10_validate_slice2_routing_acceptance_gate(&plan(3), &other, &policy).unwrap_err(),
        "slice2 acceptance failed: plan/bridge hash mismatch"
    );
}

#[test]
fn continuity_gate_accepts_an_integration_within_the_envelope() {
    let policy = Phase10Slice4RuntimeContinuityPolicy::canonical();
    let b = bridge(&["alpha", "beta"], &[1, -1, 0]);
    let i = integration(vec![transition(40), transition(70), transition(100)]);
    phase10_validate_runtime_continuity_preservation(&plan(3), &b, &i, &policy).expect("within envelope");
}

#[test]
fn continuity_gate_names_each_violation() {
    let policy = Phase10Slice4RuntimeContinuityPolicy::canonical();
    let b = bridge(&["alpha", "beta"], &[1, -1]);
    let check = |b: &Phase10RuntimeAdaptationBridge, i: &Phase10OperatorRuntimeIntegration| {
        phase10_validate_runtime_continuity_preservation(&plan(2), b, i, &policy).unwrap_err()
    };

    let mut malformed = integration(vec![transition(50), transition(50)]);
    malformed.integration_well_formed = false;
    assert_eq!(check(&b, &malformed), "phase10_slice4_reject_integration_not_well_formed");

    let mut mismatched = integration(vec![transition(50), transition(50)]);
    mismatched.adaptation_profile_hash = "other".to_string();
    assert_eq!(check(&b, &mismatched), "phase10_slice4_reject_hash_mismatch");

    let short = integration(vec![transition(50)]);
    assert_eq!(check(&b, &short), "phase10_slice4_reject_transition_count_mismatch");

    let light = integration(vec![transition(50), transition(39)]);
    assert_eq!(check(&b, &light), "phase10_slice4_reject_operator_weight_out_of_bounds");

    let jumpy = bridge(&["alpha", "beta"], &[1, -2]);
    let fine = integration(vec![transition(50), transition(50)]);
    assert_eq!(check(&jumpy, &fine), "phase10_slice4_reject_envelope_delta_exceeded");

    let mut broken = integration(vec![transition(50), transition(50)]);
    broken.weighted_transitions[1].transition_reason = "sequenced".to_string();
    assert_eq!(check(&b, &broken), "phase10_slice4_reject_continuity_violation");
}

#[test]
fn stage_telemetry_lines_list_their_fields() {
    let b = bridge(&["alpha", "beta"], &[1, -1, 0]);
    assert_eq!(
        phase10_runtime_adaptation_telemetry_line(&b),
        "manifold_signature=manifold:operator_plan_hash=plan-hash:entry_count=3:aggregate_delta=0:routed_parameter_count=2:routed_parameters=alpha,beta:adaptation_signature=adaptation-sig:adaptation_hash=adaptation-hash:well_formed=true"
    );
    let i = integration(vec![transition(50)]);
    assert_eq!(
        phase10_operator_runtime_integration_telemetry_line(&i),
        "operator_plan_hash=plan-hash:adaptation_profile_hash=adaptation-hash:weighted_transition_count=1:aggregate_operator_weight=55:integration_signature=integration-sig:integration_hash=integration-hash:well_formed=true"
    );
    let a = Phase10TopLevelAcceptanceStage {
        operator_plan_hash: "plan-hash".to_string(),
        replay_count: 3,
        baseline_feedback_hash: "fb".to_string(),
        baseline_seed_hash: "seed".to_string(),
        acceptance_signature: "sig".to_string(),
        acceptance_profile_hash: "hash".to_string(),
        acceptance_well_formed: true,
    };
    assert_eq!(
        phase10_top_level_acceptance_telemetry_line(&a),
        "operator_plan_hash=plan-hash:replay_count=3:baseline_feedback_hash=fb:baseline_seed_hash=seed:acceptance_signature=sig:acceptance_hash=hash:well_formed=true"
    );
    let m = Phase10Slice7MultiCycleReplayAcceptanceStage {
        baseline_operator_plan_hash: "plan-hash".to_string(),
        cycle_count: 2,
        cycle_plan_hashes: vec!["p0".to_string(), "p1".to_string()],
        cycle_feedback_hashes: vec!["f0".to_string(), "f1".to_string()],
        cycle_seed_hashes: vec!["s0".to_string(), "s1".to_string()],
        baseline_transition_count: 4,
        baseline_continuity_weight_percent: 70,
        baseline_operator_weight_percent: 55,
        acceptance_signature: "sig".to_string(),
        acceptance_profile_hash: "hash".to_string(),
        acceptance_well_formed: true,
    };
    assert_eq!(
        phase10_slice7_multicycle_telemetry_line(&m),
        "baseline_plan_hash=plan-hash:cycle_count=2:baseline_transition_count=4:baseline_continuity_weight=70:baseline_operator_weight=55:acceptance_hash=hash:well_formed=true"
    );
    let c = Phase11MultiLoopConvergenceStage {
        baseline_operator_plan_hash: "plan-hash".to_string(),
        loop_count: 2,
        cycle_count_per_loop: 3,
        convergence_loop_index: 1,
        loop_acceptance_hashes: vec!["a0".to_string(), "a1".to_string()],
        loop_terminal_plan_hashes: vec!["p0".to_string(), "p1".to_string()],
        loop_terminal_seed_hashes: vec!["s0".to_string(), "s1".to_string()],
        baseline_transition_count: 4,
        baseline_continuity_weight_percent: 70,
        baseline_operator_weight_percent: 55,
        convergence_signature: "sig".to_string(),
        convergence_profile_hash: "hash".to_string(),
        convergence_well_formed: true,
    };
    assert_eq!(
        phase11_multi_loop_convergence_telemetry_line(&c),
        "baseline_plan_hash=plan-hash:loop_count=2:cycle_count_per_loop=3:convergence_loop_index=1:baseline_transition_count=4:baseline_continuity_weight=70:baseline_operator_weight=55:convergence_hash=hash:well_formed=true"
    );
}

use gort::cognition::phase90_geometry_driven_adjustment_operators::Phase90GeometryDrivenAdjustmentOperator;

fn gate_operator(id: &str, target: usize, source: usize, kind: &str, p: u8, c: u8, m: u8) -> Phase90GeometryDrivenAdjustmentOperator {
    Phase90GeometryDrivenAdjustmentOperator {
        operator_id: id.to_string(),
        target_shape_index: target,
        source_shape_index: source,
        operator_kind: kind.to_string(),
        adjustment_pressure_percent: p,
        continuity_bias_percent: c,
        manifold_alignment_percent: m,
    }
}

fn gate_plan(prefix: &str, ops: Vec<Phase90GeometryDrivenAdjustmentOperator>) -> Phase90GeometryDrivenAdjustmentPlan {
    Phase90GeometryDrivenAdjustmentPlan {
        manifold_signature: "manifold".to_string(),
        operator_count: ops.len(),
        dominant_operator_kind: "continuity_lift".to_string(),
        aggregate_adjustment_pressure_percent: 72,
        operators: ops,
        operator_plan_signature: format!("{}_fixture", prefix),
        operator_plan_hash: format!("{}_fixture_hash", prefix),
        operator_plan_well_formed: true,
    }
}

fn four_gate_operators(prefix: &str) -> Vec<Phase90GeometryDrivenAdjustmentOperator> {
    vec![
        gate_operator(&format!("{}_op_1", prefix), 0, 1, "continuity_lift", 80, 70, 75),
        gate_operator(&format!("{}_op_2", prefix), 2, 0, "gradient_smooth", 78, 74, 71),
        gate_operator(&format!("{}_op_3", prefix), 1, 2, "resonance_reweight", 82, 68, 73),
        gate_operator(&format!("{}_op_4", prefix), 3, 1, "continuity_lift", 75, 72, 70),
    ]
}

/// The bridge a plan routes to `params` (each stepping by one from 0 up to
/// its maximum): operator `i` moves parameter `(target + source + i) % n`.
fn routed_bridge(plan: &Phase90GeometryDrivenAdjustmentPlan, params: &[(&str, i32)]) -> Phase10RuntimeAdaptationBridge {
    let mut values: Vec<i32> = vec![0; params.len()];
    let mut entries = Vec::new();
    let mut names: Vec<String> = Vec::new();
    for (i, op) in plan.operators.iter().enumerate() {
        let k = (op.target_shape_index + op.source_shape_index + i) % params.len();
        let apply = op.adjustment_pressure_percent >= 50 && op.continuity_bias_percent >= 40 && op.manifold_alignment_percent >= 40;
        let pre = values[k];
        let post = if apply { (pre + 1).min(params[k].1) } else { pre };
        values[k] = post;
        entries.push(Phase70AdjustmentLogEntry {
            sequence: i as u64 + 1,
            holdout_id: format!("phase10_shape{}_to_{}", op.source_shape_index, op.target_shape_index),
            parameter_name: params[k].0.to_string(),
            semantic_context_used: format!("{}|route_param={}|route_idx={}", op.operator_kind, params[k].0, k),
            adjustment_applied: apply,
            pre_value: pre,
            post_value: post,
            delta: post - pre,
            inverse_delta: if apply { pre - post } else { 0 },
        });
        if !names.contains(&params[k].0.to_string()) {
            names.push(params[k].0.to_string());
        }
    }
    names.sort();
    Phase10RuntimeAdaptationBridge {
        manifold_signature: plan.manifold_signature.clone(),
        operator_plan_hash: plan.operator_plan_hash.clone(),
        adapted_entry_count: entries.len(),
        aggregate_applied_delta: entries.iter().map(|e| e.delta).sum(),
        routed_parameter_count: names.len(),
        routed_parameter_names: names,
        adaptation_log: Phase70AdjustmentLog { entries },
        adaptation_signature: "adaptation".to_string(),
        adaptation_profile_hash: "adaptation_hash".to_string(),
        adaptation_well_formed: true,
    }
}

#[test]
fn phase10_slice2_acceptance_gate_enforces_diversity_above_threshold() {
    let plan = gate_plan("slice2_acceptance", four_gate_operators("slice2_gate"));
    let bridge = routed_bridge(
        &plan,
        &[("continuity_pressure_boost", 6), ("coherence_gradient_trim", 4), ("boundary_tension_relief", 5)],
    );
    let policy = Phase10Slice2RoutingAcceptancePolicy::canonical();
    phase10_validate_slice2_routing_acceptance_gate(&plan, &bridge, &policy)
        .expect("slice2 acceptance should pass with diverse routing");
}

#[test]
fn phase10_slice2_acceptance_gate_rejects_low_diversity_when_threshold_met() {
    let plan = gate_plan("slice2_reject", four_gate_operators("slice2_reject"));
    let bridge = routed_bridge(&plan, &[("continuity_pressure_boost", 6)]);
    let policy = Phase10Slice2RoutingAcceptancePolicy::canonical();
    let err = phase10_validate_slice2_routing_acceptance_gate(&plan, &bridge, &policy)
        .expect_err("slice2 acceptance should reject low diversity");
    assert!(err.contains("routed parameter diversity"));
}

#[test]
fn phase10_slice2_acceptance_gate_bypasses_diversity_below_threshold() {
    let plan = gate_plan(
        "slice2_bypass",
        vec![
            gate_operator("slice2_bypass_op_1", 0, 1, "continuity_lift", 80, 70, 75),
            gate_operator("slice2_bypass_op_2", 2, 0, "gradient_smooth", 78, 74, 71),
        ],
    );
    let bridge = routed_bridge(&plan, &[("continuity_pressure_boost", 6)]);
    let policy = Phase10Slice2RoutingAcceptancePolicy::canonical();
    phase10_validate_slice2_routing_acceptance_gate(&plan, &bridge, &policy)
        .expect("slice2 acceptance should bypass diversity below threshold");
}

fn weighted_integration(
    plan: &Phase90GeometryDrivenAdjustmentPlan,
    bridge: &Phase10RuntimeAdaptationBridge,
) -> Phase10OperatorRuntimeIntegration {
    let ts: Vec<Phase10OperatorWeightedFrameTransition> = (0..bridge.adaptation_log.entries.len())
        .map(|i| {
            let op = &plan.operators[i % plan.operators.len()];
            let w = ((op.adjustment_pressure_percent as u16 + op.continuity_bias_percent as u16
                + op.manifold_alignment_percent as u16)
                / 3) as u8;
            Phase10OperatorWeightedFrameTransition {
                from_frame_id: format!("frame_{}", i),
                to_frame_id: format!("frame_{}", i + 1),
                entry_allowed: true,
                exit_allowed: true,
                continuity_preserved: w >= 40,
                transition_reason: format!("sequenced|operator_kind={}|operator_weight={}", op.operator_kind, w),
                operator_kind: op.operator_kind.clone(),
                operator_weight_percent: w,
            }
        })
        .collect();
    Phase10OperatorRuntimeIntegration {
        operator_plan_hash: plan.operator_plan_hash.clone(),
        adaptation_profile_hash: bridge.adaptation_profile_hash.clone(),
        weighted_transition_count: ts.len(),
        aggregate_operator_weight_percent: 74,
        weighted_transitions: ts,
        integration_signature: "integration".to_string(),
        integration_profile_hash: "integration_hash".to_string(),
        integration_well_formed: true,
    }
}

#[test]
fn phase10_slice4_runtime_continuity_preservation_accepts_canonical_integration() {
    let plan = gate_plan("slice4", four_gate_operators("slice4"));
    let bridge = routed_bridge(&plan, &[("continuity_pressure_boost", 6), ("coherence_gradient_trim", 4)]);
    let integration = weighted_integration(&plan, &bridge);
    let policy = Phase10Slice4RuntimeContinuityPolicy::canonical();
    phase10_validate_runtime_continuity_preservation(&plan, &bridge, &integration, &policy)
        .expect("canonical integration should preserve runtime continuity");
}

#[test]
fn phase10_slice4_runtime_continuity_rejects_violation_with_canonical_reason_code() {
    let plan = gate_plan("slice4", four_gate_operators("slice4"));
    let bridge = routed_bridge(&plan, &[("continuity_pressure_boost", 6), ("coherence_gradient_trim", 4)]);
    let mut integration = weighted_integration(&plan, &bridge);
    integration.weighted_transitions[0].continuity_preserved = false;
    integration.weighted_transitions[0].transition_reason = "phase10_forced_continuity_break".to_string();
    let policy = Phase10Slice4RuntimeContinuityPolicy::canonical();
    let err = phase10_validate_runtime_continuity_preservation(&plan, &bridge, &integration, &policy)
        .expect_err("continuity violation must be rejected");
    assert_eq!(err, "phase10_slice4_reject_continuity_violation");
}
