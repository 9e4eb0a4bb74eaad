use gort::cognition::constraint::SemanticConstraint;
use gort::cognition::evaluator::{ConstraintEvalEngine, ConstraintStatus};
use gort::cognition::scheduler::TaskScheduler;
use gort::geom::field::{FieldPoint, SemanticField};
use gort::geom::invariants::InvariantViolation;
use gort::geom::space::Coordinate3;

#[test]
fn detects_polarity_conflicts() {
    let engine = ConstraintEvalEngine::new();
    let constraints = vec![
        SemanticConstraint::assertion("light", "wave", true, 100),
        SemanticConstraint::assertion("light", "wave", false, 90),
    ];
    let conflicts = engine.detect_conflicts(&constraints);
    assert_eq!(conflicts.len(), 1);
}

#[test]
fn disambiguation_tie_breaker_is_lexicographic() {
    let engine = ConstraintEvalEngine::new();
    let mut field = SemanticField::new();
    field.upsert_concept(
        "light:alpha",
        FieldPoint {
            position: Coordinate3::new(0, 0, 0),
            intensity: 10,
        },
    );
    field.upsert_concept(
        "light:beta",
        FieldPoint {
            position: Coordinate3::new(0, 0, 0),
            intensity: 10,
        },
    );

    let decision = engine
        .disambiguate_subject_senses(&field, "light")
        .expect("expected tied candidates");

    assert_eq!(decision.selected_concept, "light:alpha");
    assert_eq!(decision.candidates[0].score, decision.candidates[1].score);
    assert_eq!(decision.score_gap, 0);
    assert!(decision.unresolved);
}

#[test]
fn ambiguity_margin_marks_near_ties_unresolved() {
    let engine = ConstraintEvalEngine::new();
    let mut field = SemanticField::new();
    field.upsert_concept(
        "light:wave",
        FieldPoint {
            position: Coordinate3::new(0, 0, 0),
            intensity: 100,
        },
    );
    field.upsert_concept(
        "light:particle",
        FieldPoint {
            position: Coordinate3::new(0, 1, 0),
            intensity: 99,
        },
    );

    let strict = engine
        .disambiguate_subject_senses_with_margin(&field, "light", 0)
        .expect("expected candidates");
    assert!(!strict.unresolved);

    let tolerant = engine
        .disambiguate_subject_senses_with_margin(&field, "light", 5000)
        .expect("expected candidates");
    assert!(tolerant.unresolved);
}

#[test]
fn parallel_resolution_is_worker_invariant() {
    let engine = ConstraintEvalEngine::new();
    let scheduler = TaskScheduler::new();
    let constraints = vec![
        SemanticConstraint::assertion("light", "wave", true, 90),
        SemanticConstraint::assertion("light", "wave", false, 30),
        SemanticConstraint::assertion("vacuum", "has_medium", false, 80),
        SemanticConstraint::assertion("vacuum", "has_medium", true, 20),
        SemanticConstraint::assertion("light", "particle", true, 88),
    ];

    let mut audit_a = Vec::new();
    let mut audit_b = Vec::new();
    let (a, sa) = engine
        .resolve_contradictions_parallel_deterministic(&constraints, &scheduler, 1, &mut audit_a)
        .expect("parallel resolve should succeed");
    let (b, sb) = engine
        .resolve_contradictions_parallel_deterministic(&constraints, &scheduler, 6, &mut audit_b)
        .expect("parallel resolve should succeed");

    assert_eq!(a, b);
    assert_eq!(sa.groups_processed, sb.groups_processed);
    assert_eq!(sa.conflicts_resolved, sb.conflicts_resolved);
    assert_eq!(sa.conflicts_resolved, 2);
}

// ── further cases ────────────────────────────────────────────────────────────

#[test]
fn constraints_become_colon_joined_nodes() {
    let engine = ConstraintEvalEngine::new();
    let constraints = vec![
        SemanticConstraint::assertion("light", "wave", true, 90),
        SemanticConstraint::assertion("light", "illusion", false, 60),
    ];
    let nodes = engine.constraints_to_nodes(&constraints);
    assert_eq!(nodes.len(), 2);
    assert_eq!(nodes[0].concept, "light:wave");
    assert!(nodes[0].polarity);
    assert_eq!(nodes[0].confidence, 90);
    assert_eq!(nodes[1].concept, "light:illusion");
    assert!(!nodes[1].polarity);
    assert_eq!(nodes[0].id.len(), 64);
    assert_ne!(nodes[0].id, nodes[1].id);
}

#[test]
fn projection_places_nodes_by_position_polarity_and_confidence() {
    let engine = ConstraintEvalEngine::new();
    let constraints = vec![
        SemanticConstraint::assertion("light", "wave", true, 92),
        SemanticConstraint::assertion("light", "illusion", false, 60),
    ];
    let nodes = engine.constraints_to_nodes(&constraints);
    let field = engine.project_nodes_to_field(&nodes);
    assert_eq!(field.concept_count(), 2);
    let wave = field.concept("light:wave").expect("wave present");
    assert_eq!(wave.position, Coordinate3::new(0, 1, 92));
    assert_eq!(wave.intensity, 92);
    let illusion = field.concept("light:illusion").expect("illusion present");
    assert_eq!(illusion.position, Coordinate3::new(1, -1, 60));
    assert_eq!(illusion.intensity, -60);
    let ordered = field.ordered_concepts();
    assert_eq!(ordered[0].0, "light:illusion");
    assert_eq!(ordered[1].0, "light:wave");
}

#[test]
fn later_node_with_same_concept_replaces_earlier_point() {
    let engine = ConstraintEvalEngine::new();
    let constraints = vec![
        SemanticConstraint::assertion("light", "wave", true, 10),
        SemanticConstraint::assertion("light", "wave", false, 20),
    ];
    let nodes = engine.constraints_to_nodes(&constraints);
    let field = engine.project_nodes_to_field(&nodes);
    assert_eq!(field.concept_count(), 1);
    let p = field.concept("light:wave").expect("present");
    assert_eq!(p.position, Coordinate3::new(1, -1, 20));
    assert_eq!(p.intensity, -20);
}

#[test]
fn evaluate_reports_blank_terms_and_zero_weight() {
    let engine = ConstraintEvalEngine::new();
    let ok = SemanticConstraint::assertion("light", "wave", true, 5);
    assert_eq!(engine.evaluate(&ok), Ok(ConstraintStatus::Satisfied));
    let zero = SemanticConstraint::assertion("light", "wave", true, 0);
    assert_eq!(engine.evaluate(&zero), Ok(ConstraintStatus::Violated));
    let blank = SemanticConstraint::assertion("  ", "wave", true, 5);
    match engine.evaluate(&blank) {
        Err(InvariantViolation::Consistency { message, contradicting_terms }) => {
            assert_eq!(message, "subject/predicate cannot be empty");
            assert_eq!(contradicting_terms, vec!["  ".to_string(), "wave".to_string()]);
        }
        other => panic!("unexpected {:?}", other),
    }
}

#[test]
fn conflicts_pair_with_first_occurrence_of_key() {
    let engine = ConstraintEvalEngine::new();
    let constraints = vec![
        SemanticConstraint::assertion("light", "wave", true, 100),
        SemanticConstraint::assertion("light", "wave", true, 50),
        SemanticConstraint::assertion("light", "wave", false, 90),
        SemanticConstraint::assertion("sound", "wave", false, 90),
    ];
    let conflicts = engine.detect_conflicts(&constraints);
    assert_eq!(conflicts.len(), 1);
    assert_eq!(conflicts[0].0, 0);
    assert_eq!(conflicts[0].1, 2);
    assert_eq!(conflicts[0].2, "Conflict on light:wave polarity mismatch");
}

#[test]
fn resolve_contradictions_sorts_or_refuses() {
    let engine = ConstraintEvalEngine::new();
    let mut audit = Vec::new();
    let constraints = vec![
        SemanticConstraint::assertion("vacuum", "empty", true, 3),
        SemanticConstraint::assertion("light", "wave", true, 9),
        SemanticConstraint::assertion("light", "wave", true, 2),
        SemanticConstraint::assertion("light", "particle", false, 4),
    ];
    let resolved = engine
        .resolve_contradictions(&constraints, &mut audit)
        .expect("no conflicts");
    let order: Vec<(String, String, u8)> = resolved
        .iter()
        .map(|c| (c.subject.clone(), c.predicate.clone(), c.weight))
        .collect();
    assert_eq!(
        order,
        vec![
            ("light".to_string(), "particle".to_string(), 4),
            ("light".to_string(), "wave".to_string(), 2),
            ("light".to_string(), "wave".to_string(), 9),
            ("vacuum".to_string(), "empty".to_string(), 3),
        ]
    );
    assert_eq!(audit, vec!["resolved 4 constraints".to_string()]);

    let mut audit2 = Vec::new();
    let bad = vec![
        SemanticConstraint::assertion("light", "wave", true, 100),
        SemanticConstraint::assertion("light", "wave", false, 90),
    ];
    match engine.resolve_contradictions(&bad, &mut audit2) {
        Err(InvariantViolation::Consistency { message, contradicting_terms }) => {
            assert_eq!(message, "unable to auto-resolve contradictory constraints");
            assert_eq!(
                contradicting_terms,
                vec!["Conflict on light:wave polarity mismatch".to_string()]
            );
        }
        other => panic!("unexpected {:?}", other),
    }
    assert_eq!(audit2, vec!["1 conflict(s) detected".to_string()]);
}

#[test]
fn parallel_resolution_reduces_each_key_group() {
    let engine = ConstraintEvalEngine::new();
    let scheduler = TaskScheduler::new();
    let constraints = vec![
        SemanticConstraint::assertion("light", "wave", true, 90),
        SemanticConstraint::assertion("light", "wave", false, 30),
        SemanticConstraint::assertion("vacuum", "has_medium", false, 80),
        SemanticConstraint::assertion("vacuum", "has_medium", true, 20),
        SemanticConstraint::assertion("light", "particle", true, 88),
    ];
    let mut audit = Vec::new();
    let (resolved, summary) = engine
        .resolve_contradictions_parallel_deterministic(&constraints, &scheduler, 0, &mut audit)
        .expect("resolves");
    assert_eq!(summary.worker_count, 1);
    assert_eq!(summary.groups_processed, 3);
    let view: Vec<(String, String, bool, u8)> = resolved
        .iter()
        .map(|c| (c.subject.clone(), c.predicate.clone(), c.affirmed, c.weight))
        .collect();
    assert_eq!(
        view,
        vec![
            ("light".to_string(), "particle".to_string(), true, 88),
            ("light".to_string(), "wave".to_string(), true, 90),
            ("vacuum".to_string(), "has_medium".to_string(), false, 80),
        ]
    );
    assert_eq!(
        audit,
        vec![
            "parallel contradiction resolution groups=3 conflicts_resolved=2".to_string(),
            "resolved conflict on light:wave -> polarity=affirmed (affirmed_weight=90, negated_weight=30)"
                .to_string(),
            "resolved conflict on vacuum:has_medium -> polarity=negated (affirmed_weight=20, negated_weight=80)"
                .to_string(),
        ]
    );

    let mut empty_audit = Vec::new();
    let (none, s0) = engine
        .resolve_contradictions_parallel_deterministic(&[], &scheduler, 4, &mut empty_audit)
        .expect("resolves");
    assert!(none.is_empty());
    assert_eq!(s0.worker_count, 4);
    assert_eq!(s0.groups_processed, 0);
    assert_eq!(empty_audit, vec!["parallel contradiction resolution: no constraints".to_string()]);
}

#[test]
fn parallel_resolution_caps_summed_weight() {
    let engine = ConstraintEvalEngine::new();
    let scheduler = TaskScheduler::new();
    let constraints = vec![
        SemanticConstraint::assertion("a", "b", true, 200),
        SemanticConstraint::assertion("a", "b", true, 150),
        SemanticConstraint::assertion("a", "b", false, 100),
    ];
    let mut audit = Vec::new();
    let (resolved, summary) = engine
        .resolve_contradictions_parallel_deterministic(&constraints, &scheduler, 2, &mut audit)
        .expect("resolves");
    assert_eq!(summary.conflicts_resolved, 1);
    assert_eq!(resolved.len(), 1);
    assert!(resolved[0].affirmed);
    assert_eq!(resolved[0].weight, 255);
}

#[test]
fn disambiguation_scores_interference_exactly() {
    let engine = ConstraintEvalEngine::new();
    let mut field = SemanticField::new();
    field.upsert_concept(
        "light:wave",
        FieldPoint {
            position: Coordinate3::new(0, 0, 0),
            intensity: 92,
        },
    );
    field.upsert_concept(
        "light:particle",
        FieldPoint {
            position: Coordinate3::new(1, 1, 0),
            intensity: 88,
        },
    );
    field.upsert_concept(
        "dark:matter",
        FieldPoint {
            position: Coordinate3::new(5, 5, 5),
            intensity: 1,
        },
    );
    let d = engine
        .disambiguate_subject_senses(&field, "light")
        .expect("two senses");
    assert_eq!(d.subject, "light");
    assert_eq!(d.candidates.len(), 2);
    // wave: 92000 + (4 * 100) / 3 = 92133; particle: 88000 + (-400) / 3 = 87867
    assert_eq!(d.candidates[0].concept, "light:wave");
    assert_eq!(d.candidates[0].support, 92000);
    assert_eq!(d.candidates[0].interference, 133);
    assert_eq!(d.candidates[0].score, 92133);
    assert_eq!(d.candidates[1].interference, -133);
    assert_eq!(d.candidates[1].score, 87867);
    assert_eq!(d.score_gap, 4266);
    assert!(!d.unresolved);
    assert!(engine.disambiguate_subject_senses(&field, "dark").is_none());
}

#[test]
fn negative_margin_leaves_an_exact_tie_resolved() {
    let engine = ConstraintEvalEngine::new();
    let mut field = SemanticField::new();
    for concept in ["light:alpha", "light:beta"] {
        field.upsert_concept(
            concept,
            FieldPoint {
                position: Coordinate3::new(0, 0, 0),
                intensity: 10,
            },
        );
    }
    let decision = engine
        .disambiguate_subject_senses_with_margin(&field, "light", -1)
        .expect("expected tied candidates");
    assert_eq!(decision.score_gap, 0);
    assert!(!decision.unresolved);
}
