use gort::cognition::constraint::SemanticConstraint;
use sha2::{Digest, Sha256};
use gort::geom::field::{FieldPoint, SemanticField};
use gort::geom::space::Coordinate3;
use gort::cognition::multiframe::{
    AnchorRegistry, ConceptAnchor, ConsolidatedMemory, EmergentConcept, FrameIterationResult, MultiFrameCognition,
};
use gort::cognition::multiframe_consolidation::{
    append_missing_constraints, consolidate_stable_senses, count_cross_frame_conflicts, fuse_cross_frame_constraints,
    propagate_resonance_constraints, active_anchor_energies, compute_anchor_continuity, anchor_guided_fusion,
    materialize_emergent_concepts, registered_anchor_registry, replace_colons, synthesize_emergent_constraints,
    EmergentConceptCandidate,
};
use gort::cognition::multiframe_energy::{
    compute_cognitive_potential_field, compute_energy_minimizing_trajectory, select_action,
};
use gort::cognition::multiframe_flow::compute_cognitive_flow_field;
use gort::cognition::multiframe_topology::{
    anchor_derived_relational_distance, compare_topologies, compute_cognitive_topology, detect_phase_transition,
    track_manifold_evolution, CognitiveTopology,
};

const V: &str = "064521bcd294c60d";
const P: &str = "15f33301be1c63f6";
const W: &str = "35065efd2f53d5d3";
const L: &str = "be88099e2457c3aa";

fn memory(anchors: &[&str]) -> ConsolidatedMemory {
    ConsolidatedMemory {
        converged_iteration: None,
        fused_constraints: Vec::new(),
        stable_senses: Vec::new(),
        anchor_basis_ids: anchors.iter().map(|s| s.to_string()).collect(),
        anchor_basis_hash: String::new(),
        self_continuity_score: 0,
        external_change_score: 0,
        emergent_concepts: Vec::new(),
        ontology_expansion_score: 0,
        artifact_hash: String::new(),
    }
}

fn light_memory() -> ConsolidatedMemory {
    memory(&["light:wave", "light:particle", "vacuum:medium"])
}

fn snapshots() -> Vec<CognitiveTopology> {
    let m = light_memory();
    vec![
        compute_cognitive_topology(&m, 600).unwrap(),
        compute_cognitive_topology(&m, 0).unwrap(),
    ]
}

#[test]
fn topology_of_empty_memory_is_fully_stable() {
    let t = compute_cognitive_topology(&memory(&[]), 500).unwrap();
    assert!(t.neighborhoods.is_empty());
    assert!(t.regions.is_empty());
    assert_eq!(t.metrics.region_count, 0);
    assert_eq!(t.metrics.manifold_stability, 1000);
    assert_eq!(t.canonical_hash, "cb7dd45bb92fa9bfd17445bcc1db29834fef5684dbf6f5151590e85839f5b403");
}

#[test]
fn topology_links_anchors_that_share_a_subject() {
    let t = compute_cognitive_topology(&light_memory(), 600).unwrap();
    let centers: Vec<&str> = t.neighborhoods.iter().map(|n| n.center.as_str()).collect();
    assert_eq!(centers, vec!["light:particle", "light:wave", "vacuum:medium"]);
    assert_eq!(t.neighborhoods[0].neighbors, vec!["light:wave".to_string()]);
    assert_eq!(t.neighborhoods[1].neighbors, vec!["light:particle".to_string()]);
    assert!(t.neighborhoods[2].neighbors.is_empty());
    assert_eq!(t.regions.len(), 2);
    assert_eq!(t.regions[0].id, V);
    assert_eq!(t.regions[0].cohesion_score, 1000);
    assert_eq!(t.regions[1].id, L);
    assert_eq!(t.regions[1].members, vec!["light:particle".to_string(), "light:wave".to_string()]);
    assert_eq!(t.regions[1].representative, "light:particle");
    assert_eq!(t.regions[1].cohesion_score, 400);
    assert!(t.regions.iter().all(|r| r.boundary_members.is_empty()));
    assert!(t.boundary_concepts.is_empty());
    assert_eq!(t.metrics.region_count, 2);
    assert_eq!(t.metrics.total_concepts, 3);
    assert_eq!(t.metrics.avg_neighborhood_size, 0);
    assert_eq!(t.metrics.manifold_stability, 1000);
    assert_eq!(t.canonical_hash, "644125e1ddc2d8bde1e859075a1b3364c44a37a7d553b56dd6280f0433d114af");
}

#[test]
fn shared_emergent_concepts_pull_anchors_closer() {
    let mut m = memory(&["light:wave", "sound:wave"]);
    let far = compute_cognitive_topology(&m, 800).unwrap();
    assert_eq!(far.regions.len(), 2);
    m.emergent_concepts.push(EmergentConcept {
        id: "wave".to_string(),
        subject: "wave".to_string(),
        basis_anchors: vec!["light:wave".to_string(), "sound:wave".to_string()],
        members: Vec::new(),
        resonance_score: 0,
        persistence_hits: 0,
        canonical_hash: String::new(),
    });
    let near = compute_cognitive_topology(&m, 800).unwrap();
    assert_eq!(near.regions.len(), 1);
    assert_eq!(near.regions[0].cohesion_score, 200);
}

#[test]
fn negative_threshold_links_nothing() {
    let t = compute_cognitive_topology(&light_memory(), -5).unwrap();
    assert_eq!(t.regions.len(), 3);
    assert!(t.neighborhoods.iter().all(|n| n.radius == 0 && n.neighbors.is_empty()));
}

#[test]
fn identical_topologies_do_not_drift() {
    let t = compute_cognitive_topology(&light_memory(), 600).unwrap();
    let d = compare_topologies(&t, &t);
    assert_eq!(d.drift_score, 0);
    assert!(!d.hash_changed);
    assert!(d.added_regions.is_empty() && d.removed_regions.is_empty());
    assert!(!detect_phase_transition(&d, 1));
    assert!(detect_phase_transition(&d, -3) == false);
}

#[test]
fn splitting_a_region_drifts() {
    let s = snapshots();
    let d = compare_topologies(&s[0], &s[1]);
    assert_eq!(d.region_delta, 1);
    assert_eq!(d.boundary_delta, 0);
    assert_eq!(d.stability_delta, 0);
    assert_eq!(d.cohesion_delta, 300);
    assert_eq!(d.added_regions, vec![P.to_string(), W.to_string()]);
    assert_eq!(d.removed_regions, vec![L.to_string()]);
    assert!(d.hash_changed);
    assert_eq!(d.drift_score, 930);
    assert!(detect_phase_transition(&d, 5000));
}

#[test]
fn evolution_tracks_persistent_regions() {
    let s = snapshots();
    let trace = track_manifold_evolution(&s, 1000).unwrap();
    assert_eq!(trace.steps.len(), 1);
    assert_eq!(trace.steps[0].step_index, 1);
    assert!(trace.steps[0].is_phase_transition);
    assert_eq!(trace.phase_transition_steps, vec![1]);
    assert_eq!(trace.persistent_region_ids, vec![V.to_string()]);
    assert_eq!(trace.transient_region_ids, vec![P.to_string(), W.to_string(), L.to_string()]);
    assert_eq!(trace.overall_stability, 70);
    assert_eq!(trace.canonical_hash.len(), 64);
    let empty = track_manifold_evolution(&Vec::new(), 1).unwrap();
    assert!(empty.steps.is_empty());
    assert_eq!(empty.overall_stability, 1000);
}

#[test]
fn relational_distance_weighs_anchors_and_scores() {
    let mut a = memory(&["x", "y"]);
    let mut b = memory(&["y", "z"]);
    a.self_continuity_score = 100;
    b.self_continuity_score = 400;
    a.ontology_expansion_score = 5000;
    let d = anchor_derived_relational_distance(&a, &b);
    assert_eq!(d.anchor_jaccard_distance, 666);
    assert_eq!(d.emergent_jaccard_distance, 0);
    assert_eq!(d.continuity_delta, 300);
    assert_eq!(d.external_delta, 0);
    assert_eq!(d.ontology_delta, 1000);
    assert_eq!(d.score, 412);
    let same = anchor_derived_relational_distance(&a, &a);
    assert_eq!(same.score, 0);
}

#[test]
fn flow_field_follows_region_persistence() {
    let s = snapshots();
    let anchors = vec!["light:wave".to_string()];
    let f = compute_cognitive_flow_field(&s, &anchors).unwrap();
    let ids: Vec<&str> = f.region_vectors.iter().map(|r| r.region_id.as_str()).collect();
    assert_eq!(ids, vec![V, P, W, L]);
    let persistence: Vec<i64> = f.region_vectors.iter().map(|r| r.persistence_score).collect();
    assert_eq!(persistence, vec![1000, 500, 500, 500]);
    let attractors: Vec<bool> = f.region_vectors.iter().map(|r| r.is_attractor).collect();
    assert_eq!(attractors, vec![false, false, true, false]);
    assert!(f.region_vectors.iter().all(|r| r.cohesion_trend == 0 && r.size_trend == 0));
    assert_eq!(f.prediction.predicted_stable_region_ids, vec![V.to_string()]);
    assert_eq!(
        f.prediction.predicted_transient_region_ids,
        vec![P.to_string(), W.to_string(), L.to_string()]
    );
    assert_eq!(f.prediction.momentum, 930);
    assert!(!f.prediction.convergent);
    let concepts: Vec<(&str, i64, i64, i64)> = f
        .concept_vectors
        .iter()
        .map(|c| (c.concept.as_str(), c.region_flux, c.anchor_pull, c.net_direction))
        .collect();
    assert_eq!(
        concepts,
        vec![("light:particle", -1, 0, -1), ("light:wave", -1, 1, 59), ("vacuum:medium", 0, 0, 0)]
    );
    assert_eq!(f.canonical_hash.len(), 64);
}

#[test]
fn flow_of_no_snapshots_is_convergent() {
    let f = compute_cognitive_flow_field(&Vec::new(), &Vec::new()).unwrap();
    assert!(f.region_vectors.is_empty() && f.concept_vectors.is_empty());
    assert!(f.prediction.convergent);
    assert_eq!(f.prediction.momentum, 0);
}

#[test]
fn potential_field_ranks_persistent_regions_lowest() {
    let s = snapshots();
    let anchors = vec!["light:wave".to_string()];
    let f = compute_cognitive_flow_field(&s, &anchors).unwrap();
    let pf = compute_cognitive_potential_field(&f).unwrap();
    let order: Vec<(&str, i64, i64, i64)> = pf
        .stability_energies
        .iter()
        .map(|e| (e.region_id.as_str(), e.potential, e.well_depth, e.attraction_strength))
        .collect();
    assert_eq!(order, vec![(V, 0, 0, 0), (P, 500, -500, 0), (W, 500, 1000, 500), (L, 500, -500, 0)]);
    assert_eq!(pf.gradients.len(), 12);
    assert_eq!(pf.gradients[0].gradient, 500);
    assert_eq!(pf.gradients[0].traversal_cost, 550);
    assert_eq!(pf.gradients[11].gradient, -500);
    assert_eq!(pf.global_minimum_region, V);
    assert_eq!(pf.global_minimum_energy, 0);

    let action = select_action(&pf, L).unwrap();
    assert_eq!(action.preferred_trajectory, vec![V.to_string()]);
    assert_eq!(action.energy_cost, 550);
    assert_eq!(action.stability_gain, 500);
    assert_eq!(action.confidence, 907);

    let rest = select_action(&pf, V).unwrap();
    assert_eq!(rest.preferred_trajectory, vec![V.to_string()]);
    assert_eq!(rest.confidence, 800);
}

#[test]
fn trajectory_descends_to_the_global_minimum() {
    let s = snapshots();
    let anchors = vec!["light:wave".to_string()];
    let f = compute_cognitive_flow_field(&s, &anchors).unwrap();
    let t = compute_energy_minimizing_trajectory(&s, &f, &anchors).unwrap();
    assert_eq!(t.actions.len(), 1);
    assert_eq!(t.actions[0].preferred_trajectory, vec![V.to_string()]);
    assert_eq!(t.total_energy_cost, 550);
    assert!(!t.convergent_outcome);
    let none = compute_energy_minimizing_trajectory(&Vec::new(), &f, &anchors).unwrap();
    assert!(none.actions.is_empty());
    assert_eq!(none.total_energy_cost, 0);
}

use gort::cognition::multiframe_energy::{CognitivePotentialField, EnergyGradient, StabilityEnergy};
use gort::cognition::multiframe_intent::{
    arbitrate_intent_field, build_goal_hierarchy, build_goal_set, build_meta_intent_field, compute_conflict_gradients,
    compute_intent_field, compute_meta_preference_gradients, compute_preference_gradients,
    compute_self_coherence_metric, resolve_meta_intent_trajectory, resolve_trajectory,
    select_goal_directed_trajectory,
};

fn energy(id: &str, potential: i64, well_depth: i64, attraction_strength: i64) -> StabilityEnergy {
    StabilityEnergy { region_id: id.to_string(), potential, well_depth, attraction_strength }
}

fn gradient(from: &str, to: &str, gradient: i64, traversal_cost: i64) -> EnergyGradient {
    EnergyGradient { source_region: from.to_string(), target_region: to.to_string(), gradient, traversal_cost }
}

fn landscape() -> CognitivePotentialField {
    CognitivePotentialField {
        stability_energies: vec![energy("a", 100, 300, 900), energy("b", 200, 100, 800), energy("c", 700, -700, 200)],
        gradients: vec![
            gradient("c", "a", 600, 650),
            gradient("c", "b", 500, 550),
            gradient("b", "a", 100, 150),
            gradient("a", "b", -100, 150),
            gradient("b", "c", -500, 550),
            gradient("a", "c", -600, 650),
        ],
        global_minimum_region: "a".to_string(),
        global_minimum_energy: 100,
    }
}

fn names(v: &[String]) -> Vec<&str> {
    v.iter().map(|s| s.as_str()).collect()
}

#[test]
fn intent_forms_goals_at_low_wells() {
    let pf = landscape();
    let anchors = vec!["x".to_string(), "y".to_string()];
    let intent = compute_intent_field(&pf, &anchors).unwrap();
    let goals: Vec<(&str, i64, i64, i64)> = intent
        .goal_attractors
        .iter()
        .map(|g| (g.region_id.as_str(), g.goal_weight, g.preferred_energy_ceiling, g.persistence_preference))
        .collect();
    assert_eq!(goals, vec![("a", 920, 250, 150), ("b", 820, 250, 100)]);
    assert_eq!(names(&intent.preferred_regions), vec!["a", "b"]);
    assert_eq!(names(&intent.avoidance_regions), vec!["c"]);
    assert_eq!(intent.canonical_hash.len(), 64);
}

#[test]
fn intent_of_empty_field_has_no_goals() {
    let pf = CognitivePotentialField {
        stability_energies: Vec::new(),
        gradients: Vec::new(),
        global_minimum_region: String::new(),
        global_minimum_energy: 500,
    };
    let intent = compute_intent_field(&pf, &Vec::new()).unwrap();
    assert!(intent.goal_attractors.is_empty());
    assert!(intent.preferred_regions.is_empty() && intent.avoidance_regions.is_empty());
}

#[test]
fn preferences_favour_goals_and_shun_avoided_regions() {
    let pf = landscape();
    let intent = compute_intent_field(&pf, &vec!["x".to_string(), "y".to_string()]).unwrap();
    let prefs = compute_preference_gradients(&pf, &intent).unwrap();
    let scores: Vec<(&str, &str, i64, i64)> = prefs
        .iter()
        .map(|p| (p.source_region.as_str(), p.target_region.as_str(), p.goal_pull, p.preference_score))
        .collect();
    assert_eq!(
        scores,
        vec![
            ("c", "a", 250, 850),
            ("c", "b", 250, 750),
            ("b", "a", 250, 350),
            ("a", "b", 250, 150),
            ("b", "c", -300, -800),
            ("a", "c", -300, -900),
        ]
    );
}

#[test]
fn intent_selects_the_most_efficient_preferred_move() {
    let pf = landscape();
    let intent = compute_intent_field(&pf, &vec!["x".to_string(), "y".to_string()]).unwrap();
    let from_b = select_goal_directed_trajectory(&pf, &intent, "b").unwrap();
    assert_eq!(names(&from_b.selected_path), vec!["b", "a"]);
    assert_eq!(from_b.projected_energy, 100);
    assert_eq!(from_b.goal_stability.goal_alignment, 1000);
    assert_eq!(from_b.goal_stability.trajectory_efficiency, 1000);
    assert_eq!(from_b.goal_stability.stability_projection, 950);
    assert_eq!(from_b.goal_stability.intent_confidence, 983);
    assert_eq!(names(&from_b.avoided_regions), vec!["c"]);

    let from_c = select_goal_directed_trajectory(&pf, &intent, "c").unwrap();
    assert_eq!(names(&from_c.selected_path), vec!["c", "b"]);
    assert_eq!(from_c.goal_stability.stability_projection, 600);
    assert_eq!(from_c.goal_stability.intent_confidence, 866);

    let from_a = select_goal_directed_trajectory(&pf, &intent, "a").unwrap();
    assert_eq!(names(&from_a.selected_path), vec!["a", "b"]);
    assert_eq!(from_a.goal_stability.trajectory_efficiency, 993);
    assert_eq!(from_a.goal_stability.stability_projection, 900);
}

#[test]
fn arbitration_merges_goals_and_resolves_moves() {
    let pf = landscape();
    let intent = compute_intent_field(&pf, &vec!["x".to_string(), "y".to_string()]).unwrap();
    let base = vec![("a".to_string(), 50)];
    let goal_set = build_goal_set(&vec![intent.clone()], &base).unwrap();
    let goals: Vec<(&str, i64)> = goal_set.goals.iter().map(|g| (g.region_id.as_str(), g.goal_weight)).collect();
    assert_eq!(goals, vec![("a", 970), ("b", 920)]);
    assert_eq!(goal_set.priority_weights, vec![("a".to_string(), 50), ("b".to_string(), 100)]);

    let conflicts = compute_conflict_gradients(&goal_set, &pf).unwrap();
    let c: Vec<(&str, i64, i64, i64, i64)> = conflicts
        .iter()
        .map(|g| (g.region_id.as_str(), g.total_pull, g.dominant_pull, g.interference, g.coherence_score))
        .collect();
    assert_eq!(c, vec![("a", 970, 970, 0, 970), ("b", 920, 920, 0, 920), ("c", 0, 0, 0, 0)]);

    let arb = arbitrate_intent_field(&vec![intent.clone()], &pf, &base).unwrap();
    assert_eq!(arb.dominant_goal_region, "a");
    assert_eq!(arb.arbitration_confidence, 1000);

    let from_c = resolve_trajectory(&arb, &pf, "c").unwrap();
    assert_eq!(names(&from_c.selected_path), vec!["c", "a"]);
    assert_eq!(names(&from_c.deferred_goals), vec!["b"]);
    assert_eq!(from_c.conflict_cost, 0);
    assert_eq!(from_c.arbitration_efficiency, 1000);
    assert!(from_c.convergent);

    let from_a = resolve_trajectory(&arb, &pf, "a").unwrap();
    assert_eq!(names(&from_a.selected_path), vec!["a", "b"]);
    assert!(from_a.deferred_goals.is_empty());
}

#[test]
fn meta_intent_ranks_goals_and_measures_coherence() {
    let pf = landscape();
    let intent = compute_intent_field(&pf, &vec!["x".to_string(), "y".to_string()]).unwrap();
    let arb = arbitrate_intent_field(&vec![intent], &pf, &vec![("a".to_string(), 50)]).unwrap();
    let h = build_goal_hierarchy(&arb).unwrap();
    assert_eq!(h.layers, vec![vec!["b".to_string()], vec!["a".to_string()]]);
    assert_eq!(h.parent_links, vec![("a".to_string(), "b".to_string())]);

    let metas = compute_meta_preference_gradients(&arb, &h).unwrap();
    let m: Vec<(&str, &str, i64, i64, i64)> = metas
        .iter()
        .map(|g| (g.source_goal.as_str(), g.target_goal.as_str(), g.influence, g.coherence_delta, g.net_meta_pull))
        .collect();
    assert_eq!(m, vec![("b", "a", 50, 120, 170), ("a", "b", -50, -60, -110)]);

    let c = compute_self_coherence_metric(&arb, &h, &metas, &Vec::new()).unwrap();
    assert_eq!(c.hierarchy_coherence, 880);
    assert_eq!(c.conflict_load, 0);
    assert_eq!(c.revision_pressure, 40);
    assert_eq!(c.temporal_stability, 800);
    assert_eq!(c.self_consistency, 910);
    let steady = compute_self_coherence_metric(&arb, &h, &metas, &vec!["h".to_string(), "h".to_string()]).unwrap();
    assert_eq!(steady.temporal_stability, 1000);
    assert_eq!(steady.self_consistency, 960);

    let field = build_meta_intent_field(&arb, &Vec::new()).unwrap();
    assert_eq!(names(&field.revision_candidates), vec!["b"]);

    let t = resolve_meta_intent_trajectory(&arb, &pf, "c", &Vec::new()).unwrap();
    assert_eq!(names(&t.selected_path), vec!["c", "a"]);
    assert_eq!(names(&t.revised_goals), vec!["b"]);
    assert_eq!(names(&t.deferred_goals), vec!["b"]);
    assert_eq!(t.coherence_metric.self_consistency, 910);
}

#[test]
fn registering_frames_counts_each_topic_once() {
    let mut mfc = MultiFrameCognition::new();
    assert_eq!(mfc.frame_count(), 0);
    mfc.register_frame("physics", vec![SemanticConstraint::assertion("bank", "river", true, 5)]);
    mfc.register_frame("finance", vec![SemanticConstraint::assertion("bank", "money", true, 5)]);
    assert_eq!(mfc.frame_count(), 2);
    mfc.register_frame("physics", Vec::new());
    assert_eq!(mfc.frame_count(), 2);
    mfc.register_frame("art", Vec::new());
    assert_eq!(mfc.frame_count(), 3);
    assert_eq!(MultiFrameCognition::default().frame_count(), 0);
}


#[test]
fn relational_distance_is_symmetric_and_bounded() {
    let mut a = memory(&["x", "y"]);
    let mut b = memory(&["y", "z", "w"]);
    a.external_change_score = -700;
    b.external_change_score = 900;
    let ab = anchor_derived_relational_distance(&a, &b);
    let ba = anchor_derived_relational_distance(&b, &a);
    assert_eq!(ab, ba);
    assert!((0..=1000).contains(&ab.score));
    assert_eq!(ab.external_delta, 1000);
    assert_eq!(anchor_derived_relational_distance(&b, &b).score, 0);
}

#[test]
fn gradients_cover_every_ordered_pair_with_their_costs() {
    let s = snapshots();
    let f = compute_cognitive_flow_field(&s, &Vec::new()).unwrap();
    let pf = compute_cognitive_potential_field(&f).unwrap();
    let n = pf.stability_energies.len();
    assert_eq!(pf.gradients.len(), n * (n - 1));
    for g in &pf.gradients {
        let pot = |id: &str| pf.stability_energies.iter().find(|e| e.region_id == id).unwrap().potential;
        assert_eq!(g.gradient, pot(&g.source_region) - pot(&g.target_region));
        assert_eq!(g.traversal_cost, g.gradient.abs() + 50);
    }
}

fn frame_result(senses: &[(&str, &str, bool)]) -> FrameIterationResult {
    FrameIterationResult {
        topic: "t".to_string(),
        frame_id: "f".to_string(),
        closure_status: "Partial".to_string(),
        selected_senses: senses
            .iter()
            .map(|(s, c, u)| (s.to_string(), c.to_string(), *u, 0i64))
            .collect(),
        field_concepts: 0,
    }
}

#[test]
fn stable_senses_follow_the_majority_of_resolved_selections() {
    let frames = vec![
        frame_result(&[("light", "light:wave", false), ("mass", "mass:inertial", true)]),
        frame_result(&[("light", "light:particle", false), ("mass", "mass:gravity", false)]),
        frame_result(&[("light", "light:particle", false)]),
    ];
    let senses = consolidate_stable_senses(&frames);
    assert_eq!(senses.len(), 2);
    assert_eq!(senses[0].subject, "light");
    assert_eq!(senses[0].selected_concept, "light:particle");
    assert_eq!(senses[0].support_frames, 2);
    assert_eq!(senses[1].subject, "mass");
    assert_eq!(senses[1].selected_concept, "mass:gravity");
    assert_eq!(senses[1].support_frames, 1);
}

#[test]
fn stable_sense_ties_go_to_the_first_concept_in_text_order() {
    let frames = vec![
        frame_result(&[("zeta", "zeta:b", false), ("alpha", "alpha:x", true)]),
        frame_result(&[("zeta", "zeta:a", false)]),
    ];
    let senses = consolidate_stable_senses(&frames);
    assert_eq!(senses.len(), 1);
    assert_eq!(senses[0].subject, "zeta");
    assert_eq!(senses[0].selected_concept, "zeta:a");
    assert_eq!(senses[0].support_frames, 1);
    assert!(consolidate_stable_senses(&Vec::new()).is_empty());
}

#[test]
fn cross_frame_conflicts_count_each_key_held_both_ways_once() {
    let a = |s: &str, p: &str, aff: bool| SemanticConstraint::assertion(s, p, aff, 5);
    let mut with_object = a("light", "wave", false);
    with_object.object = Some("sea".to_string());
    let frames = vec![
        vec![a("light", "wave", true), a("mass", "inertial", true)],
        vec![a("light", "wave", false), a("light", "wave", false), a("mass", "inertial", true)],
        vec![a("heat", "flow", true), with_object, a("heat", "flow", false), a("light", "wave", true)],
    ];
    assert_eq!(count_cross_frame_conflicts(&frames), 2);
    assert_eq!(count_cross_frame_conflicts(&vec![vec![a("x", "y", true)], vec![a("x", "y", true)]]), 0);
    assert_eq!(count_cross_frame_conflicts(&Vec::new()), 0);
}

#[test]
fn appending_constraints_skips_known_keys_and_sorts() {
    let a = |s: &str, p: &str, aff: bool, w: u8| SemanticConstraint::assertion(s, p, aff, w);
    let mut base = vec![a("light", "wave", true, 5)];
    let adds = vec![
        a("light", "wave", true, 9),
        a("light", "wave", false, 3),
        a("alpha", "x", true, 1),
        a("alpha", "x", true, 2),
    ];
    append_missing_constraints(&mut base, &adds);
    let got: Vec<(String, String, bool, u8)> = base
        .iter()
        .map(|c| (c.subject.clone(), c.predicate.clone(), c.affirmed, c.weight))
        .collect();
    assert_eq!(
        got,
        vec![
            ("alpha".to_string(), "x".to_string(), true, 1),
            ("light".to_string(), "wave".to_string(), false, 3),
            ("light".to_string(), "wave".to_string(), true, 5),
        ]
    );
}

#[test]
fn fusion_settles_each_key_on_its_heavier_polarity() {
    let a = |s: &str, p: &str, aff: bool, w: u8| SemanticConstraint::assertion(s, p, aff, w);
    let frames = vec![
        vec![a("light", "wave", true, 10), a("mass", "x", false, 3), a("z", "z", false, 0)],
        vec![a("light", "wave", false, 12), a("light", "wave", true, 5), a("mass", "x", true, 3)],
        vec![a("light", "wave", true, 2), a("heat", "flow", false, 200), a("heat", "flow", false, 100)],
    ];
    let fused = fuse_cross_frame_constraints(&frames);
    let got: Vec<(String, String, bool, u8)> = fused
        .iter()
        .map(|c| (c.subject.clone(), c.predicate.clone(), c.affirmed, c.weight))
        .collect();
    assert_eq!(
        got,
        vec![
            ("heat".to_string(), "flow".to_string(), false, 255),
            ("light".to_string(), "wave".to_string(), true, 17),
            ("mass".to_string(), "x".to_string(), true, 3),
        ]
    );
    assert!(fuse_cross_frame_constraints(&Vec::new()).is_empty());
}

#[test]
fn resonance_adjusts_weights_by_field_agreement() {
    let a = |s: &str, p: &str, aff: bool, w: u8| SemanticConstraint::assertion(s, p, aff, w);
    let mut field = SemanticField::new();
    for (name, intensity) in [("light:wave", 300i64), ("mass:x", -1000), ("heat:flow", -30)] {
        field.upsert_concept(name, FieldPoint { position: Coordinate3::new(0, 0, 0), intensity });
    }
    let cs = vec![a("light", "wave", true, 250), a("mass", "x", true, 5), a("heat", "flow", false, 0), a("z", "z", true, 7)];
    let out = propagate_resonance_constraints(&field, &cs);
    let got: Vec<(String, bool, u8)> = out.iter().map(|c| (c.subject.clone(), c.affirmed, c.weight)).collect();
    assert_eq!(
        got,
        vec![
            ("heat".to_string(), false, 1),
            ("light".to_string(), true, 255),
            ("mass".to_string(), true, 1),
            ("z".to_string(), true, 7),
        ]
    );
}

fn anchor(id: &str, energy: i64, hits: usize) -> ConceptAnchor {
    ConceptAnchor { id: id.to_string(), canonical_hash: "h".to_string(), energy, persistence_hits: hits, frame_count: 1 }
}

#[test]
fn active_anchor_energies_keep_the_last_active_entry_per_id() {
    let registry = AnchorRegistry {
        anchors: vec![anchor("b:x", 5, 2), anchor("a:y", 7, 1), anchor("b:x", 9, 3), anchor("c:z", -4, 0)],
    };
    assert_eq!(
        active_anchor_energies(&registry, 0),
        vec![("a:y".to_string(), 7), ("b:x".to_string(), 9)]
    );
    assert_eq!(active_anchor_energies(&registry, 3), vec![("b:x".to_string(), 9)]);
    assert!(active_anchor_energies(&registry, 4).is_empty());
}

#[test]
fn anchor_continuity_measures_overlap_drift_stability_and_coherence() {
    let mut field = SemanticField::new();
    for (name, intensity) in [("a", 50i64), ("b", 200), ("x", 1)] {
        field.upsert_concept(name, FieldPoint { position: Coordinate3::new(0, 0, 0), intensity });
    }
    let active = vec![("a".to_string(), 10i64), ("b".to_string(), -20), ("c".to_string(), 5)];
    let previous = vec![("b".to_string(), -5i64), ("c".to_string(), 5), ("d".to_string(), 1)];
    assert_eq!(compute_anchor_continuity(&field, &active, &previous), (2, 15, 66, 30));
    assert_eq!(compute_anchor_continuity(&SemanticField::new(), &active, &Vec::new()), (0, 0, 100, 0));
}

#[test]
fn anchor_guided_fusion_moves_weights_towards_anchors_and_field() {
    let a = |s: &str, p: &str, aff: bool, w: u8| SemanticConstraint::assertion(s, p, aff, w);
    let registry = AnchorRegistry {
        anchors: vec![anchor("light:wave", 50, 2), anchor("mass:x", -30, 2), anchor("heat:flow", 10, 0)],
    };
    let mut field = SemanticField::new();
    for (name, intensity) in [("light:wave", 40i64), ("mass:x", 5), ("heat:flow", -10)] {
        field.upsert_concept(name, FieldPoint { position: Coordinate3::new(0, 0, 0), intensity });
    }
    let cs = || vec![a("light", "wave", true, 10), a("mass", "x", true, 3), a("heat", "flow", true, 7), a("z", "z", false, 250)];
    let summary = |v: &Vec<SemanticConstraint>| -> Vec<(String, u8)> { v.iter().map(|c| (c.subject.clone(), c.weight)).collect() };
    let out = anchor_guided_fusion(cs(), &registry, 2, &field, 8);
    assert_eq!(
        summary(&out),
        vec![("heat".to_string(), 6), ("light".to_string(), 20), ("mass".to_string(), 3), ("z".to_string(), 250)]
    );
    for bias in [0i64, -5, 256] {
        let same = anchor_guided_fusion(cs(), &registry, 2, &field, bias);
        assert_eq!(summary(&same), summary(&cs()));
    }
    let strong = anchor_guided_fusion(cs(), &registry, 2, &field, 300);
    assert_eq!(strong[1].subject, "light");
    assert_eq!(strong[1].weight, 32);
}

fn candidate(id: &str, subject: &str) -> EmergentConceptCandidate {
    EmergentConceptCandidate {
        id: id.to_string(),
        subject: subject.to_string(),
        basis_anchors: vec![format!("{}:a", subject)],
        members: vec![format!("{}:a", subject), format!("{}:b", subject)],
        resonance_score: 70,
    }
}

#[test]
fn emergent_constraints_come_from_persistent_candidates() {
    assert_eq!(replace_colons("emergent:light:x:2"), "emergent_light_x_2");
    assert_eq!(replace_colons(""), "");
    let cands = vec![
        candidate("emergent:light:light_wave:2", "light"),
        candidate("emergent:heat:x:3", "heat"),
        candidate("emergent:mass:y:1", "mass"),
    ];
    let hits = vec![("emergent:light:light_wave:2".to_string(), 3usize), ("emergent:mass:y:1".to_string(), 1)];
    let out = synthesize_emergent_constraints(&cands, &hits, 2, 0);
    assert_eq!(out.len(), 1);
    assert_eq!(out[0].subject, "light");
    assert_eq!(out[0].predicate, "emergent/emergent_light_light_wave_2");
    assert!(out[0].affirmed && out[0].object.is_none());
    assert_eq!(out[0].weight, 1);
    let out = synthesize_emergent_constraints(&cands, &hits, 0, 36);
    let got: Vec<(String, u8)> = out.iter().map(|c| (c.subject.clone(), c.weight)).collect();
    assert_eq!(got, vec![("light".to_string(), 36), ("mass".to_string(), 36)]);
}

#[test]
fn emergent_concepts_carry_candidate_hits_and_content_hash() {
    let light = candidate("emergent:light:light_a:2", "light");
    let mass = candidate("emergent:mass:mass_a:2", "mass");
    let hits = vec![
        ("emergent:heat:x:1".to_string(), 5usize),
        (light.id.clone(), 3),
        (mass.id.clone(), 1),
    ];
    let latest = vec![(light.id.clone(), light.clone()), (mass.id.clone(), mass.clone())];
    let out = materialize_emergent_concepts(&hits, &latest, 2).unwrap();
    assert_eq!(out.len(), 1);
    let c = &out[0];
    assert_eq!(c.id, light.id);
    assert_eq!(c.subject, "light");
    assert_eq!(c.basis_anchors, light.basis_anchors);
    assert_eq!(c.members, light.members);
    assert_eq!(c.resonance_score, 70);
    assert_eq!(c.persistence_hits, 3);
    let bytes = serde_json::to_vec(&(&light.id, &light.subject, &light.basis_anchors, &light.members, 70i64, &3usize)).unwrap();
    let expected: String = Sha256::digest(&bytes).iter().map(|b| format!("{:02x}", b)).collect();
    assert_eq!(c.canonical_hash, expected);
    assert_eq!(materialize_emergent_concepts(&hits, &latest, 1).unwrap().len(), 2);
}

#[test]
fn registered_registry_keeps_active_anchors_in_id_then_hash_order() {
    let mut b2 = anchor("b:x", 9, 3);
    b2.canonical_hash = "a".to_string();
    let registry = AnchorRegistry {
        anchors: vec![anchor("b:x", 5, 2), anchor("a:y", 7, 1), b2, anchor("c:z", -4, 0)],
    };
    let r = registered_anchor_registry(&registry, 0);
    let got: Vec<(String, String, i64)> =
        r.anchors.iter().map(|a| (a.id.clone(), a.canonical_hash.clone(), a.energy)).collect();
    assert_eq!(
        got,
        vec![
            ("a:y".to_string(), "h".to_string(), 7),
            ("b:x".to_string(), "a".to_string(), 9),
            ("b:x".to_string(), "h".to_string(), 5),
        ]
    );
    assert_eq!(registered_anchor_registry(&registry, 3).anchors.len(), 1);
}

#[test]
fn fused_constraints_hold_no_conflict() {
    let a = |s: &str, p: &str, aff: bool, w: u8| SemanticConstraint::assertion(s, p, aff, w);
    let frames = vec![
        vec![a("light", "wave", true, 10), a("mass", "x", false, 3)],
        vec![a("light", "wave", false, 12), a("mass", "x", true, 4)],
    ];
    assert_eq!(count_cross_frame_conflicts(&frames), 2);
    let fused = fuse_cross_frame_constraints(&frames);
    assert_eq!(count_cross_frame_conflicts(&vec![fused]), 0);
}
