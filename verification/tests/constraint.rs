use gort::cognition::constraint::{ConstraintKind, SemanticConstraint};

#[test]
fn constraint_assertion_and_key() {
    let c = SemanticConstraint::assertion("light", "wave", true, 100);
    assert_eq!(c.kind, ConstraintKind::Assertion);
    assert_eq!(c.object, None);
    assert_eq!(c.key(), ("light".to_string(), "wave".to_string(), None));
    let mut d = c.clone();
    d.object = Some("sea".to_string());
    assert_eq!(d.key().2, Some("sea".to_string()));
}
