use gort::cognition::evaluator::ConstraintEvalEngine;
use gort::cognition::multiframe::AnchorRegistry;
use gort::cognition::phase61_structural_recovery::{
    Phase61SignalSnapshot, Phase61StructuralRecoveryState,
};
use gort::json::{json_int_member, json_str_member, json_str_text, json_strs_text};

#[test]
fn json_string_literal_quotes_plain_text() {
    assert_eq!(json_str_text("anchor"), "\"anchor\"");
    assert_eq!(json_str_text(""), "\"\"");
    assert_eq!(json_str_text("énergie"), "\"énergie\"");
}

#[test]
fn json_string_literal_escapes_quote_backslash_and_controls() {
    assert_eq!(json_str_text("a\"b"), "\"a\\\"b\"");
    assert_eq!(json_str_text("a\\b"), "\"a\\\\b\"");
    assert_eq!(json_str_text("l1\nl2\tx\r"), "\"l1\\nl2\\tx\\r\"");
    assert_eq!(json_str_text("\u{8}\u{c}"), "\"\\b\\f\"");
    assert_eq!(json_str_text("\u{1}\u{1f}"), "\"\\u0001\\u001f\"");
    assert_eq!(json_str_text("\u{7f}/"), "\"\u{7f}/\"");
}

#[test]
fn json_members_and_arrays_use_escaped_literals() {
    assert_eq!(json_int_member("k\"", -5), "\"k\\\"\":-5");
    assert_eq!(json_str_member("key", "v\n"), "\"key\":\"v\\n\"");
    let v = vec!["a".to_string(), "b\\".to_string()];
    assert_eq!(json_strs_text(&v), "[\"a\",\"b\\\\\"]");
    assert_eq!(json_strs_text(&Vec::new()), "[]");
}

#[test]
fn defaults_are_empty_and_zero() {
    let s = Phase61SignalSnapshot::default();
    assert!(!s.has_previous_iteration);
    assert_eq!(s.contradiction_count, 0);
    assert_eq!(s.unresolved_subjects, 0);
    assert_eq!(s.anchor_overlap, 0);
    assert_eq!(s.anchor_field_coherence, 0);
    assert_eq!(s.anchor_drift, 0);
    assert_eq!(s.energy_delta, 0);
    assert_eq!(s.energy_delta_threshold, 0);
    let r = Phase61StructuralRecoveryState::default();
    assert_eq!(r.active_until_iteration(), None);
    assert!(AnchorRegistry::default().anchors.is_empty());
    let _engine = ConstraintEvalEngine::default();
}
