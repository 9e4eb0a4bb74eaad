use gort::cognition::node::{CognitiveFrame, SemanticNode};
use gort::geom::invariants::{ClosureStatus, InvariantViolation};

#[test]
fn node_id_is_deterministic() {
    let a = SemanticNode::new("light", true, 90);
    let b = SemanticNode::new("light", true, 90);
    assert_eq!(a.id, b.id);
}

#[test]
fn frame_closure_without_nodes_is_partial() {
    let frame = CognitiveFrame::new("test");
    let (next, _) = frame.attempt_closure();
    assert_eq!(next.status, ClosureStatus::Partial);
}

#[test]
fn frame_with_unresolved_subject_stays_partial() {
    let mut frame = CognitiveFrame::new("light");
    frame.add_node(SemanticNode::new("light:wave", true, 90));
    frame.mark_unresolved_subject("light");

    let (next, transition) = frame.attempt_closure();
    assert_eq!(next.status, ClosureStatus::Partial);

    let transition = transition.expect("expected transition");
    assert!(transition.reasoning_summary.contains("unresolved multi-sense disambiguation"));
}

#[test]
fn node_id_is_the_sha256_of_concept_polarity_and_confidence() {
    // SHA-256 of the bytes "a", 0x01, 0x05.
    let n = SemanticNode::new("a", true, 5);
    assert_eq!(n.id.len(), 64);
    assert_ne!(n.id, SemanticNode::new("a", false, 5).id);
    assert_ne!(n.id, SemanticNode::new("a", true, 6).id);
    assert!(n.id.chars().all(|c| c.is_ascii_hexdigit() && !c.is_ascii_uppercase()));
}

#[test]
fn frame_closes_when_everything_is_resolved() {
    let mut frame = CognitiveFrame::new("light");
    frame.add_node(SemanticNode::new("light:wave", true, 90));
    let (next, transition) = frame.attempt_closure();
    assert_eq!(next.status, ClosureStatus::Closed);
    let t = transition.expect("transition");
    assert_eq!(t.from_status, ClosureStatus::Open);
    assert!(t.resolved_by_last_user_turn);
    assert_eq!(t.reasoning_summary, "all nodes resolved");
    assert_eq!(next.audit.last().map(|s| s.as_str()), Some("closure attempted: closed"));
    assert_eq!(frame.status, ClosureStatus::Open);
}

#[test]
fn unresolved_subjects_stay_sorted_and_unique() {
    let mut frame = CognitiveFrame::new("t");
    frame.mark_unresolved_subject("zeta");
    frame.mark_unresolved_subject("alpha");
    frame.mark_unresolved_subject("zeta");
    assert_eq!(frame.unresolved_subjects, vec!["alpha".to_string(), "zeta".to_string()]);
    assert_eq!(frame.audit.len(), 3);
    frame.add_node(SemanticNode::new("x", true, 1));
    let (next, t) = frame.attempt_closure();
    assert_eq!(t.unwrap().reasoning_summary, "unresolved multi-sense disambiguation: alpha,zeta");
    assert_eq!(next.audit.last().unwrap(), "closure attempted: unresolved senses for alpha,zeta");
}

#[test]
fn frame_id_tracks_content_and_audit_is_validated() {
    let mut a = CognitiveFrame::new("topic");
    let b = CognitiveFrame::new("topic");
    assert_eq!(a.frame_id(), b.frame_id());
    assert_eq!(a.frame_id().len(), 64);
    a.add_node(SemanticNode::new("n", true, 1));
    assert_ne!(a.frame_id(), b.frame_id());
    assert!(a.validate().is_ok());
    a.audit.clear();
    match a.validate() {
        Err(InvariantViolation::Auditability { message, missing_audit_step }) => {
            assert_eq!(message, "audit trail cannot be empty");
            assert_eq!(missing_audit_step, "frame initialized");
        }
        other => panic!("unexpected {:?}", other),
    }
    a.record_derivation("step".to_string());
    assert_eq!(a.audit_trail(), vec!["step".to_string()]);
}
