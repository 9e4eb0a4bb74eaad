use gort::cognition::phase90_cognitive_manifolds::{
    phase90_form_cognitive_manifold, phase90_manifold_telemetry_line, Phase90CognitiveManifold,
};
use gort::cognition::phase90_continuity_weighted_fields::{
    phase90_field_telemetry_line, phase90_form_continuity_weighted_field_from_seed,
    Phase90ContinuityWeightedGeometryField,
};
use gort::cognition::phase90_emergent_cognitive_shapes::{
    phase90_compose_emergent_cognitive_shape, phase90_shape_telemetry_line,
    Phase90EmergentCognitiveShape,
};
use gort::cognition::phase90_geometric_cognitive_seed::{
    phase90_form_geometry_seed_from_integration_hook, phase90_seed_formation_telemetry_line,
    Phase80CrossFrameStructuralDelta, Phase80EpisodeStructuralSummary,
    Phase80Phase9IntegrationHook, Phase90GeometricCognitiveSeed,
};
use gort::cognition::phase90_geometry_driven_adjustment_operators::{
    phase90_build_geometry_driven_adjustment_plan, phase90_geometry_operator_telemetry_line,
};
use gort::cognition::phase90_multishape_interaction_dynamics::{
    phase90_compute_multishape_interaction_dynamics, phase90_interaction_dynamics_telemetry_line,
    Phase90MultiShapeInteractionDynamics,
};

const PARAM: &str = "continuity_pressure_boost";

fn episode_inputs(
    episode_id: &str,
    weight: u8,
    deltas: &[(i32, i32)],
    contexts: &[&str],
) -> (Phase80Phase9IntegrationHook, Phase80EpisodeStructuralSummary, Vec<Phase80CrossFrameStructuralDelta>) {
    let hook = Phase80Phase9IntegrationHook {
        episode_id: episode_id.to_string(),
        continuity_weight_percent: weight,
        integration_ready: true,
    };
    let summary = Phase80EpisodeStructuralSummary {
        episode_id: episode_id.to_string(),
        frame_count: deltas.len() + 1,
        transition_count: deltas.len(),
        propagated_semantic_contexts: contexts.iter().map(|c| c.to_string()).collect(),
    };
    let ds = deltas
        .iter()
        .enumerate()
        .map(|(i, (raw, adjusted))| Phase80CrossFrameStructuralDelta {
            from_frame_id: format!("{}_frame_{}", episode_id, i),
            to_frame_id: format!("{}_frame_{}", episode_id, i + 1),
            parameter_name: PARAM.to_string(),
            raw_structural_delta: *raw,
            continuity_adjusted_delta: *adjusted,
        })
        .collect();
    (hook, summary, ds)
}

fn seed(episode_id: &str, weight: u8) -> Phase90GeometricCognitiveSeed {
    let (hook, summary, deltas) =
        episode_inputs(episode_id, weight, &[(1, 1), (0, 0)], &["continuity_insensitive", "none", "none"]);
    phase90_form_geometry_seed_from_integration_hook(&hook, &summary, &deltas)
}

fn field(episode_id: &str) -> Phase90ContinuityWeightedGeometryField {
    phase90_form_continuity_weighted_field_from_seed(&seed(episode_id, 80))
}

fn shape(prefix: &str, count: usize) -> Phase90EmergentCognitiveShape {
    let fields: Vec<_> = (0..count).map(|i| field(&format!("{}_{}", prefix, i + 1))).collect();
    phase90_compose_emergent_cognitive_shape(&fields).expect("shape")
}

fn manifold_fixture() -> Phase90CognitiveManifold {
    phase90_form_cognitive_manifold(&[shape("dyn_a", 2), shape("dyn_b", 1)]).expect("manifold")
}

fn plan_fixture() -> (Phase90CognitiveManifold, Phase90MultiShapeInteractionDynamics) {
    let manifold = manifold_fixture();
    let dynamics = phase90_compute_multishape_interaction_dynamics(&manifold).expect("dynamics");
    (manifold, dynamics)
}

#[test]
fn phase90_slice1_forms_seed_from_hook_and_deltas() {
    let (hook, summary, deltas) = episode_inputs(
        "episode_p9s1",
        67,
        &[(1, 1), (0, 0)],
        &["continuity_insensitive", "none"],
    );
    let seed = phase90_form_geometry_seed_from_integration_hook(&hook, &summary, &deltas);

    assert_eq!(seed.episode_id, "episode_p9s1");
    assert!(seed.geometry_well_formed);
    assert!(!seed.seed_content_hash.is_empty());
    assert_eq!(seed.transition_count, deltas.len());
    assert!(!seed.semantic_anchor_contexts.is_empty());
    assert_eq!(seed.source_frame_count, 3);
}

#[test]
fn phase90_slice1_seed_has_well_formed_geometry_when_hook_ready() {
    let (hook, summary, deltas) =
        episode_inputs("episode_p9s1_b", 50, &[(1, 1)], &["continuity_insensitive", "none"]);
    let seed = phase90_form_geometry_seed_from_integration_hook(&hook, &summary, &deltas);

    assert!(hook.integration_ready, "hook must be ready");
    assert!(!deltas.is_empty(), "deltas must be non-empty");
    assert!(!seed.semantic_anchor_contexts.is_empty(), "anchors must exist");
    assert!(seed.geometry_well_formed, "seed must be well-formed");
}

#[test]
fn phase90_slice1_seed_content_hash_is_deterministic() {
    let a = seed("episode_p9s1_hash", 75);
    let b = seed("episode_p9s1_hash", 75);
    assert_eq!(a, b, "seeds must be identical");
    assert_eq!(a.seed_content_hash, b.seed_content_hash, "content hashes must be identical");
}

#[test]
fn phase90_slice1_telemetry_is_canonical_and_replay_stable() {
    let s = seed("episode_p9s1_telemetry", 60);
    let t1 = phase90_seed_formation_telemetry_line(&s);
    let t2 = phase90_seed_formation_telemetry_line(&s);
    assert_eq!(t1, t2, "telemetry must be identical on replay");
    assert!(t1.contains("episode_id="));
    assert!(t1.contains("geometry_signature="));
    assert!(t1.contains("semantic_anchors="));
    assert!(t1.contains("well_formed="));
}

#[test]
fn phase90_slice1_seed_geometry_is_exact() {
    let (hook, summary, deltas) = episode_inputs("ep", 40, &[(3, -2), (1, 5)], &["b", "a", "b"]);
    let s = phase90_form_geometry_seed_from_integration_hook(&hook, &summary, &deltas);
    assert_eq!(s.semantic_anchor_contexts, vec!["a".to_string(), "b".to_string()]);
    assert_eq!(s.total_delta_magnitude, 7);
    assert_eq!(
        s.geometry_signature,
        "episode=ep|contexts=a,b|weight=40|total_delta=7|deltas=0:ep_frame_0->ep_frame_1:continuity_pressure_boost:3:-2|1:ep_frame_1->ep_frame_2:continuity_pressure_boost:1:5"
    );
    let mut short = summary.clone();
    short.transition_count = 5;
    let s2 = phase90_form_geometry_seed_from_integration_hook(&hook, &short, &deltas);
    assert!(!s2.geometry_well_formed);
}

#[test]
fn phase90_slice2_forms_field_from_seed() {
    let s = seed("episode_p9s2_field", 67);
    let field = phase90_form_continuity_weighted_field_from_seed(&s);

    assert_eq!(field.episode_id, "episode_p9s2_field");
    assert_eq!(field.field_strength, s.continuity_weight_percent);
    assert!((10..=90).contains(&field.influence_decay_rate));
    assert!((50..=500).contains(&field.field_radius));
    assert!(!field.field_signature.is_empty());
    assert!(!field.field_profile_hash.is_empty());
    assert_eq!(field.source_context_count, s.semantic_anchor_contexts.len());
}

#[test]
fn phase90_slice2_field_strength_correlates_with_continuity_weight() {
    let high = seed("episode_high_continuity", 100);
    let low = seed("episode_low_continuity", 33);
    let field_high = phase90_form_continuity_weighted_field_from_seed(&high);
    let field_low = phase90_form_continuity_weighted_field_from_seed(&low);
    assert_eq!(field_high.field_strength, high.continuity_weight_percent);
    assert_eq!(field_low.field_strength, low.continuity_weight_percent);
    assert!(field_high.influence_decay_rate < field_low.influence_decay_rate);
}

#[test]
fn phase90_slice2_field_decay_rate_is_deterministic() {
    let mut decay_rates = Vec::new();
    for _ in 0..10 {
        let f = phase90_form_continuity_weighted_field_from_seed(&seed("episode_p9s2_decay", 50));
        decay_rates.push(f.influence_decay_rate);
    }
    let first_rate = decay_rates[0];
    for rate in decay_rates.iter() {
        assert_eq!(*rate, first_rate, "decay rate must be deterministic across replays");
    }
    assert_eq!(first_rate, 75);
}

#[test]
fn phase90_slice2_field_profile_hash_is_deterministic() {
    let a = phase90_form_continuity_weighted_field_from_seed(&seed("episode_p9s2_hash", 50));
    let b = phase90_form_continuity_weighted_field_from_seed(&seed("episode_p9s2_hash", 50));
    assert_eq!(a, b);
    assert_eq!(a.field_profile_hash, b.field_profile_hash, "profile hash must be identical");
}

#[test]
fn phase90_slice2_field_telemetry_is_canonical() {
    let f = phase90_form_continuity_weighted_field_from_seed(&seed("episode_p9s2_telemetry", 50));
    let t1 = phase90_field_telemetry_line(&f);
    let t2 = phase90_field_telemetry_line(&f);
    assert_eq!(t1, t2);
    assert!(t1.contains("episode_id="));
    assert!(t1.contains("field_strength="));
    assert!(t1.contains("decay_rate="));
    assert!(t1.contains("radius="));
    assert!(t1.contains("well_formed="));
}

#[test]
fn phase90_slice2_radius_and_decay_are_clamped() {
    let (hook, summary, deltas) = episode_inputs("r", 0, &[(0, 100)], &["x"]);
    let s = phase90_form_geometry_seed_from_integration_hook(&hook, &summary, &deltas);
    let f = phase90_form_continuity_weighted_field_from_seed(&s);
    assert_eq!(f.field_radius, 500);
    assert_eq!(f.influence_decay_rate, 90);
    assert!(!f.field_well_formed, "zero strength is not well formed");
    let (hook, summary, deltas) = episode_inputs("r", 100, &[(0, 1)], &["x"]);
    let s = phase90_form_geometry_seed_from_integration_hook(&hook, &summary, &deltas);
    let f = phase90_form_continuity_weighted_field_from_seed(&s);
    assert_eq!(f.field_radius, 50);
    assert_eq!(f.influence_decay_rate, 50);
}

#[test]
fn phase90_slice3_composes_shape_from_multiple_fields() {
    let shape = phase90_compose_emergent_cognitive_shape(&[field("episode_shape_a"), field("episode_shape_b")])
        .expect("shape");
    assert_eq!(shape.constituent_field_count, 2);
    assert!(shape.shape_well_formed);
    assert!(!shape.emergent_shape_signature.is_empty());
    assert!(!shape.shape_profile_hash.is_empty());
    assert!(shape.emergent_radius >= 50);
}

#[test]
fn phase90_slice3_shape_archetype_changes_with_composition_scale() {
    let base_field = field("episode_shape_scale");
    let bridge_shape =
        phase90_compose_emergent_cognitive_shape(&[base_field.clone(), base_field.clone()]).expect("bridge shape");
    let lattice_shape = phase90_compose_emergent_cognitive_shape(&[
        base_field.clone(),
        base_field.clone(),
        base_field.clone(),
        base_field.clone(),
    ])
    .expect("lattice shape");
    assert_ne!(bridge_shape.shape_archetype, lattice_shape.shape_archetype);
}

#[test]
fn phase90_slice3_shape_profile_hash_is_deterministic() {
    let a = field("episode_shape_hash_a");
    let b = field("episode_shape_hash_b");
    let shape_a = phase90_compose_emergent_cognitive_shape(&[a.clone(), b.clone()]).expect("shape a");
    let shape_b = phase90_compose_emergent_cognitive_shape(&[a, b]).expect("shape b");
    assert_eq!(shape_a, shape_b);
    assert_eq!(shape_a.shape_profile_hash, shape_b.shape_profile_hash);
}

#[test]
fn phase90_slice3_shape_telemetry_is_canonical() {
    let f = field("episode_shape_telem");
    let shape = phase90_compose_emergent_cognitive_shape(&[f.clone(), f]).expect("shape");
    let a = phase90_shape_telemetry_line(&shape);
    let b = phase90_shape_telemetry_line(&shape);
    assert_eq!(a, b);
    assert!(a.contains("episode_span="));
    assert!(a.contains("archetype="));
    assert!(a.contains("aggregate_strength="));
    assert!(a.contains("density="));
    assert!(a.contains("well_formed="));
}

#[test]
fn phase90_slice3_empty_field_set_is_rejected() {
    let err = phase90_compose_emergent_cognitive_shape(&[]).expect_err("empty");
    assert_eq!(err, "cannot compose emergent shape from empty field set");
}

#[test]
fn phase90_slice4_forms_manifold_from_shapes() {
    let manifold = phase90_form_cognitive_manifold(&[shape("manifold_a", 2), shape("manifold_b", 1)]).expect("manifold");
    assert_eq!(manifold.shape_count, 2);
    assert!(manifold.manifold_well_formed);
    assert!(!manifold.manifold_signature.is_empty());
    assert!(!manifold.manifold_profile_hash.is_empty());
    assert!(manifold.manifold_radius >= 64);
}

#[test]
fn phase90_slice4_adjacency_rules_are_deterministic() {
    let a = shape("adj_a", 1);
    let b = shape("adj_b", 1);
    let manifold_a = phase90_form_cognitive_manifold(&[a.clone(), b.clone()]).expect("manifold a");
    let manifold_b = phase90_form_cognitive_manifold(&[a, b]).expect("manifold b");
    assert_eq!(manifold_a.adjacency_edges, manifold_b.adjacency_edges);
    assert_eq!(manifold_a.adjacency_edges.len(), 1);
    assert_eq!(manifold_a.adjacency_edges[0].adjacency_kind, "resonant_archetype");
}

#[test]
fn phase90_slice4_manifold_profile_hash_is_deterministic() {
    let a = shape("hash_a", 1);
    let b = shape("hash_b", 2);
    let manifold_a = phase90_form_cognitive_manifold(&[a.clone(), b.clone()]).expect("manifold a");
    let manifold_b = phase90_form_cognitive_manifold(&[a, b]).expect("manifold b");
    assert_eq!(manifold_a, manifold_b);
    assert_eq!(manifold_a.manifold_profile_hash, manifold_b.manifold_profile_hash);
}

#[test]
fn phase90_slice4_manifold_telemetry_is_canonical() {
    let manifold = phase90_form_cognitive_manifold(&[shape("telem_a", 1), shape("telem_b", 1)]).expect("manifold");
    let a = phase90_manifold_telemetry_line(&manifold);
    let b = phase90_manifold_telemetry_line(&manifold);
    assert_eq!(a, b);
    assert!(a.contains("shape_span="));
    assert!(a.contains("edge_count="));
    assert!(a.contains("archetype="));
    assert!(a.contains("embedding="));
    assert!(a.contains("well_formed="));
}

#[test]
fn phase90_slice5_computes_interaction_dynamics_from_manifold() {
    let manifold = manifold_fixture();
    let dynamics = phase90_compute_multishape_interaction_dynamics(&manifold).expect("dynamics");
    assert!(dynamics.dynamics_well_formed);
    assert!(dynamics.interaction_count > 0);
    assert!(!dynamics.dynamics_signature.is_empty());
    assert!(!dynamics.dynamics_profile_hash.is_empty());
}

#[test]
fn phase90_slice5_interaction_modes_are_deterministic() {
    let manifold = manifold_fixture();
    let a = phase90_compute_multishape_interaction_dynamics(&manifold).expect("a");
    let b = phase90_compute_multishape_interaction_dynamics(&manifold).expect("b");
    assert_eq!(a.interaction_events, b.interaction_events);
    assert_eq!(a.dominant_interaction_mode, b.dominant_interaction_mode);
}

#[test]
fn phase90_slice5_dynamics_profile_hash_is_deterministic() {
    let manifold = manifold_fixture();
    let a = phase90_compute_multishape_interaction_dynamics(&manifold).expect("a");
    let b = phase90_compute_multishape_interaction_dynamics(&manifold).expect("b");
    assert_eq!(a, b);
    assert_eq!(a.dynamics_profile_hash, b.dynamics_profile_hash);
}

#[test]
fn phase90_slice5_dynamics_telemetry_is_canonical() {
    let manifold = manifold_fixture();
    let d = phase90_compute_multishape_interaction_dynamics(&manifold).expect("dynamics");
    let a = phase90_interaction_dynamics_telemetry_line(&d);
    let b = phase90_interaction_dynamics_telemetry_line(&d);
    assert_eq!(a, b);
    assert!(a.contains("manifold_signature="));
    assert!(a.contains("interaction_count="));
    assert!(a.contains("dominant_mode="));
    assert!(a.contains("aggregate_pressure="));
    assert!(a.contains("well_formed="));
}

#[test]
fn phase90_slice5_rejects_malformed_or_edgeless_manifolds() {
    let mut m = manifold_fixture();
    m.manifold_well_formed = false;
    assert_eq!(
        phase90_compute_multishape_interaction_dynamics(&m).unwrap_err(),
        "cannot compute interaction dynamics from malformed manifold"
    );
    let single = phase90_form_cognitive_manifold(&[shape("solo", 1)]).expect("single");
    assert_eq!(
        phase90_compute_multishape_interaction_dynamics(&single).unwrap_err(),
        "cannot compute interaction dynamics without manifold edges"
    );
}

#[test]
fn phase90_slice6_builds_adjustment_plan_from_manifold_and_dynamics() {
    let (manifold, dynamics) = plan_fixture();
    let plan = phase90_build_geometry_driven_adjustment_plan(&manifold, &dynamics).expect("plan");
    assert!(plan.operator_plan_well_formed);
    assert!(plan.operator_count > 0);
    assert!(!plan.operator_plan_signature.is_empty());
    assert!(!plan.operator_plan_hash.is_empty());
}

#[test]
fn phase90_slice6_operator_kinds_are_deterministic() {
    let (manifold, dynamics) = plan_fixture();
    let a = phase90_build_geometry_driven_adjustment_plan(&manifold, &dynamics).expect("a");
    let b = phase90_build_geometry_driven_adjustment_plan(&manifold, &dynamics).expect("b");
    assert_eq!(a.operators, b.operators);
    assert_eq!(a.dominant_operator_kind, b.dominant_operator_kind);
}

#[test]
fn phase90_slice6_operator_plan_hash_is_deterministic() {
    let (manifold, dynamics) = plan_fixture();
    let a = phase90_build_geometry_driven_adjustment_plan(&manifold, &dynamics).expect("a");
    let b = phase90_build_geometry_driven_adjustment_plan(&manifold, &dynamics).expect("b");
    assert_eq!(a, b);
    assert_eq!(a.operator_plan_hash, b.operator_plan_hash);
}

#[test]
fn phase90_slice6_operator_telemetry_is_canonical() {
    let (manifold, dynamics) = plan_fixture();
    let plan = phase90_build_geometry_driven_adjustment_plan(&manifold, &dynamics).expect("plan");
    let a = phase90_geometry_operator_telemetry_line(&plan);
    let b = phase90_geometry_operator_telemetry_line(&plan);
    assert_eq!(a, b);
    assert!(a.contains("manifold_signature="));
    assert!(a.contains("operator_count="));
    assert!(a.contains("dominant_kind="));
    assert!(a.contains("aggregate_pressure="));
    assert!(a.contains("well_formed="));
}

#[test]
fn phase90_slice6_rejects_mismatched_dynamics() {
    let (manifold, mut dynamics) = plan_fixture();
    dynamics.manifold_signature.push('x');
    assert_eq!(
        phase90_build_geometry_driven_adjustment_plan(&manifold, &dynamics).unwrap_err(),
        "manifold/dynamics signature mismatch"
    );
    let (manifold, mut dynamics) = plan_fixture();
    dynamics.interaction_events.clear();
    assert_eq!(
        phase90_build_geometry_driven_adjustment_plan(&manifold, &dynamics).unwrap_err(),
        "cannot build adjustment plan without interaction events"
    );
}
