use gort::cognition::phase12_emergent_cognitive_programs::{
    phase12_program_telemetry_line, phase12_synthesize_emergent_cognitive_program,
};
use gort::cognition::phase90_cognitive_manifolds::{phase90_form_cognitive_manifold, Phase90CognitiveManifold};
use gort::cognition::phase90_continuity_weighted_fields::{
    phase90_form_continuity_weighted_field_from_seed, Phase90ContinuityWeightedGeometryField,
};
use gort::cognition::phase90_emergent_cognitive_shapes::{
    phase90_compose_emergent_cognitive_shape, Phase90EmergentCognitiveShape,
};
use gort::cognition::phase90_geometric_cognitive_seed::{
    phase90_form_geometry_seed_from_integration_hook, Phase80CrossFrameStructuralDelta,
    Phase80EpisodeStructuralSummary, Phase80Phase9IntegrationHook,
};
use gort::cognition::phase90_geometry_driven_adjustment_operators::{
    phase90_build_geometry_driven_adjustment_plan, Phase90GeometryDrivenAdjustmentOperator,
    Phase90GeometryDrivenAdjustmentPlan,
};
use gort::cognition::phase90_multishape_interaction_dynamics::phase90_compute_multishape_interaction_dynamics;

const PARAM: &str = "continuity_pressure_boost";

/// One episode's integration inputs: `deltas` are (raw, continuity-adjusted)
/// per transition; `contexts` the propagated semantic contexts.
fn field(episode_id: &str, deltas: &[(i32, i32)], contexts: &[&str]) -> Phase90ContinuityWeightedGeometryField {
    let hook = Phase80Phase9IntegrationHook {
        episode_id: episode_id.to_string(),
        continuity_weight_percent: 80,
        integration_ready: true,
    };
    let summary = Phase80EpisodeStructuralSummary {
        episode_id: episode_id.to_string(),
        frame_count: deltas.len() + 1,
        transition_count: deltas.len(),
        propagated_semantic_contexts: contexts.iter().map(|c| c.to_string()).collect(),
    };
    let ds: Vec<Phase80CrossFrameStructuralDelta> = deltas
        .iter()
        .enumerate()
        .map(|(i, (raw, adjusted))| Phase80CrossFrameStructuralDelta {
            from_frame_id: format!("{}_frame_{}", episode_id, i),
            to_frame_id: format!("{}_frame_{}", episode_id, i + 1),
            parameter_name: PARAM.to_string(),
            raw_structural_delta: *raw,
            continuity_adjusted_delta: *adjusted,
        })
        .collect();
    let seed = phase90_form_geometry_seed_from_integration_hook(&hook, &summary, &ds);
    phase90_form_continuity_weighted_field_from_seed(&seed)
}

fn shape(prefix: &str, episodes: &[&[(i32, i32)]]) -> Phase90EmergentCognitiveShape {
    let fields: Vec<_> = episodes
        .iter()
        .enumerate()
        .map(|(i, deltas)| {
            field(
                &format!("{}_{}", prefix, i + 1),
                deltas,
                &["continuity_insensitive", "none", "none"],
            )
        })
        .collect();
    phase90_compose_emergent_cognitive_shape(&fields).expect("shape")
}

fn program_fixture() -> (Phase90CognitiveManifold, Phase90GeometryDrivenAdjustmentPlan) {
    let shape_a = shape("program_shape_a", &[&[(1, 1), (1, 1)], &[(1, 1), (0, 0), (1, 1)]]);
    let shape_b = shape("program_shape_b", &[&[(1, 1), (1, 1)], &[(1, 1), (1, 1), (0, 0)]]);
    let manifold = phase90_form_cognitive_manifold(&[shape_a, shape_b]).expect("manifold");
    let dynamics = phase90_compute_multishape_interaction_dynamics(&manifold).expect("dynamics");
    let plan = phase90_build_geometry_driven_adjustment_plan(&manifold, &dynamics).expect("plan");
    (manifold, plan)
}

#[test]
fn phase12_synthesizes_stable_program_from_converged_geometry() {
    let (manifold, plan) = program_fixture();
    let program = phase12_synthesize_emergent_cognitive_program(&manifold, &plan).expect("program");

    assert!(program.program_well_formed);
    assert_eq!(program.step_count, plan.operator_count);
    assert!(!program.program_signature.is_empty());
    assert!(!program.program_profile_hash.is_empty());
    assert_eq!(program.manifold_signature, manifold.manifold_signature);
}

#[test]
fn phase12_program_synthesis_is_deterministic() {
    let (manifold, plan) = program_fixture();
    let program_a = phase12_synthesize_emergent_cognitive_program(&manifold, &plan).expect("a");
    let program_b = phase12_synthesize_emergent_cognitive_program(&manifold, &plan).expect("b");

    assert_eq!(program_a, program_b);
}

#[test]
fn phase12_program_synthesis_rejects_signature_mismatch() {
    let (manifold, mut plan) = program_fixture();
    plan.manifold_signature = "tampered-manifold-signature".to_string();

    let err = phase12_synthesize_emergent_cognitive_program(&manifold, &plan)
        .expect_err("mismatch should be rejected");

    assert_eq!(err, "manifold/plan signature mismatch");
}

// ── further cases ────────────────────────────────────────────────────────────

#[test]
fn phase12_rejects_malformed_inputs_in_order() {
    let (mut manifold, mut plan) = program_fixture();
    plan.operators.clear();
    assert_eq!(
        phase12_synthesize_emergent_cognitive_program(&manifold, &plan).unwrap_err(),
        "cannot synthesize program without adjustment operators"
    );
    plan.operator_plan_well_formed = false;
    assert_eq!(
        phase12_synthesize_emergent_cognitive_program(&manifold, &plan).unwrap_err(),
        "cannot synthesize program from malformed adjustment plan"
    );
    manifold.manifold_well_formed = false;
    assert_eq!(
        phase12_synthesize_emergent_cognitive_program(&manifold, &plan).unwrap_err(),
        "cannot synthesize program from malformed manifold"
    );
}

#[test]
fn phase12_steps_follow_operator_kinds_and_percentages() {
    let (mut manifold, mut plan) = program_fixture();
    manifold.manifold_archetype = "lattice".to_string();
    manifold.manifold_embedding_weight_percent = 80;
    plan.aggregate_adjustment_pressure_percent = 60;
    plan.dominant_operator_kind = "custom_kind".to_string();
    plan.operators = vec![
        Phase90GeometryDrivenAdjustmentOperator {
            operator_id: "op-a".to_string(),
            target_shape_index: 1,
            source_shape_index: 0,
            operator_kind: "gradient_smooth".to_string(),
            adjustment_pressure_percent: 40,
            continuity_bias_percent: 90,
            manifold_alignment_percent: 70,
        },
        Phase90GeometryDrivenAdjustmentOperator {
            operator_id: "op-b".to_string(),
            target_shape_index: 0,
            source_shape_index: 1,
            operator_kind: "custom_kind".to_string(),
            adjustment_pressure_percent: 10,
            continuity_bias_percent: 0,
            manifold_alignment_percent: 0,
        },
    ];
    let program = phase12_synthesize_emergent_cognitive_program(&manifold, &plan).expect("program");
    assert_eq!(program.program_kind, "lattice::custom_kind");
    assert_eq!(program.resonance_gate_percent, 70);
    assert_eq!(program.step_count, 2);
    let a = &program.program_steps[0];
    assert_eq!(a.step_kind, "smooth_gradient_1");
    assert_eq!(a.continuity_guard_percent, 85);
    assert_eq!(a.manifold_alignment_percent, 70);
    assert_eq!(
        a.step_signature,
        "step=0|operator_id=op-a|source_shape=0|target_shape=1|kind=smooth_gradient_1|pressure=40|guard=85|alignment=70"
    );
    let b = &program.program_steps[1];
    assert_eq!(b.step_kind, "custom_kind_02");
    assert_eq!(b.continuity_guard_percent, 40);
    assert_eq!(b.manifold_alignment_percent, 46);
    assert!(b.step_well_formed);
    assert_eq!(
        program.program_signature,
        format!(
            "manifold={}|plan={}|kind=lattice::custom_kind|gate=70|steps={}||{}",
            manifold.manifold_signature, plan.operator_plan_hash, a.step_signature, b.step_signature
        )
    );
    assert!(program.program_well_formed);
    manifold.manifold_archetype = "local_patch".to_string();
    let local = phase12_synthesize_emergent_cognitive_program(&manifold, &plan).expect("program");
    assert_eq!(local.program_kind, "local_patch_program");
    let line = phase12_program_telemetry_line(&local);
    assert!(line.starts_with(&format!("manifold_signature={}:operator_plan_hash=", manifold.manifold_signature)));
    assert!(line.ends_with(":well_formed=true"));
}

#[test]
fn phase12_profile_hash_is_default_hasher_of_signature_gate_and_count() {
    let (manifold, plan) = program_fixture();
    let program = phase12_synthesize_emergent_cognitive_program(&manifold, &plan).expect("program");
    let mut hasher = std::collections::hash_map::DefaultHasher::new();
    std::hash::Hash::hash(&program.program_signature, &mut hasher);
    std::hash::Hash::hash(&program.resonance_gate_percent, &mut hasher);
    std::hash::Hash::hash(&program.step_count, &mut hasher);
    assert_eq!(program.program_profile_hash, format!("{:x}", std::hash::Hasher::finish(&hasher)));
}
