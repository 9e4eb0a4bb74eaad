use gort::cognition::cognition_session::{
    normalize_text, parse_candidate_index, run_cognition_session, run_cognition_tournament,
    validate_plan, CognitionPlan,
};

fn fixture_plan_a() -> CognitionPlan {
    CognitionPlan {
        goal: "Reach point X".to_string(),
        steps: vec!["Move forward".to_string(), "Turn left".to_string(), "Advance 3 units".to_string()],
    }
}

fn fixture_plan_b() -> CognitionPlan {
    CognitionPlan {
        goal: "Reach point X".to_string(),
        steps: vec!["Turn left".to_string(), "Move forward".to_string(), "Advance 3 units".to_string()],
    }
}

fn fixture_plan_c() -> CognitionPlan {
    CognitionPlan {
        goal: "Reach point X".to_string(),
        steps: vec![
            "Move forward".to_string(),
            "Check fuel".to_string(),
            "Turn left".to_string(),
            "Advance 3 units".to_string(),
        ],
    }
}

#[test]
fn cognition_session_is_deterministic_for_two_structured_plans() {
    let plan_a = fixture_plan_a();
    let plan_b = fixture_plan_b();

    let a = run_cognition_session(&plan_a, &plan_b).expect("run a");
    let b = run_cognition_session(&plan_a, &plan_b).expect("run b");

    assert_eq!(a, b);
    assert!(a.winner_plan_id == "plan_a" || a.winner_plan_id == "plan_b");
    assert_eq!(a.plan_traces.len(), 2);
    assert!(!a.arbitration_signature.is_empty());
    assert!(!a.correction_signature.is_empty());
    assert!(!a.stabilization_signature.is_empty());
    assert!(!a.telemetry_digest.is_empty());
}

#[test]
fn cognition_session_rejects_empty_structured_inputs() {
    let bad_plan = CognitionPlan { goal: " ".to_string(), steps: vec!["ok".to_string()] };
    let good = fixture_plan_b();
    let err = run_cognition_session(&bad_plan, &good).expect_err("should fail");
    assert_eq!(err, "cognition_plan_goal_empty");
}

#[test]
fn cognition_tournament_is_deterministic_for_three_plans() {
    let plans = vec![fixture_plan_a(), fixture_plan_b(), fixture_plan_c()];

    let a = run_cognition_tournament(&plans).expect("run a");
    let b = run_cognition_tournament(&plans).expect("run b");

    assert_eq!(a, b);
    assert_eq!(a.candidate_count, 3);
    assert_eq!(a.plan_traces.len(), 3);
    assert!(a.winner_plan_id.starts_with("plan_"));
    assert!(!a.arbitration_signature.is_empty());
    assert!(!a.correction_signature.is_empty());
    assert!(!a.stabilization_signature.is_empty());
    assert!(!a.telemetry_digest.is_empty());
}

#[test]
fn cognition_tournament_requires_three_or_more_plans() {
    let plans = vec![fixture_plan_a(), fixture_plan_b()];
    let err = run_cognition_tournament(&plans).expect_err("should fail");
    assert_eq!(err, "cognition_tournament_requires_at_least_3_plans");
}

#[test]
fn cognition_plan_text_is_normalised() {
    assert_eq!(normalize_text("  Move   FORWARD\tnow "), "move forward now");
    assert_eq!(normalize_text(" \n "), "");
    assert_eq!(normalize_text("Ünïcode  Σ"), "ünïcode σ");
}

#[test]
fn cognition_plan_validation_reports_each_error() {
    let no_steps = CognitionPlan { goal: "g".to_string(), steps: vec![] };
    assert_eq!(validate_plan(&no_steps).unwrap_err(), "cognition_plan_steps_empty");
    let blank_step = CognitionPlan { goal: "g".to_string(), steps: vec!["a".to_string(), "  ".to_string()] };
    assert_eq!(validate_plan(&blank_step).unwrap_err(), "cognition_plan_step_empty:1");
    assert!(validate_plan(&fixture_plan_a()).is_ok());
    let bad_second = CognitionPlan { goal: "".to_string(), steps: vec!["x".to_string()] };
    let err = run_cognition_session(&fixture_plan_a(), &bad_second).expect_err("plan b invalid");
    assert_eq!(err, "cognition_plan_goal_empty");
}

#[test]
fn cognition_candidate_ids_parse_back() {
    assert_eq!(parse_candidate_index("cand_0007"), Ok(7));
    assert_eq!(parse_candidate_index("cand_+12"), Ok(12));
    assert_eq!(parse_candidate_index("plan_0001"), Err("cognition_candidate_id_prefix_invalid".to_string()));
    assert_eq!(parse_candidate_index("cand_"), Err("cognition_candidate_id_parse_failed".to_string()));
    assert_eq!(parse_candidate_index("cand_1x"), Err("cognition_candidate_id_parse_failed".to_string()));
}

#[test]
fn cognition_tournament_reports_first_invalid_plan() {
    let mut plans = vec![fixture_plan_a(), fixture_plan_b(), fixture_plan_c()];
    plans[1].steps.push("\t".to_string());
    let err = run_cognition_tournament(&plans).expect_err("plan 2 invalid");
    assert_eq!(err, "cognition_plan_step_empty:3");
}

#[test]
fn cognition_session_winner_trace_matches_result() {
    let r = run_cognition_session(&fixture_plan_a(), &fixture_plan_b()).expect("run");
    let trace = r.plan_traces.iter().find(|t| t.plan_id == r.winner_plan_id).expect("winner trace");
    assert_eq!(trace.plan_signature, r.winner_plan_signature);
    assert_eq!(trace.phase16_trajectory_kind, r.trajectory_kind);
    assert_eq!(r.correction_plan.correction_signature, r.correction_signature);
    assert_eq!(r.stabilized_inference.stabilized_semantic_label, r.semantic_label);
    assert_eq!(r.arbitration_field.arbitration_signature, r.arbitration_signature);
}
