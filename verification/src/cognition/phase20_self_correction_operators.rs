//! Self-correction: drift detection on an inference, a correction plan for the
//! arbitration winner, and the stabilized inference that the plan yields.
use vstd::prelude::*;
use crate::cognition::phase17_semantic_measurement_operators::{label_name, Phase17SemanticLabel};
use crate::cognition::phase18_resonance_inference::{
    inference_error, phase18_validate_inference_trajectory_invariants, Phase18InferenceTrajectory,
};
use crate::cognition::phase19_arbitration_operators::{
    decision_error, phase19_validate_arbitration_decision_invariants, Phase19ArbitrationDecision,
};
use crate::text::{bool_text, dec_int, default_hash_str, hash16, hash_text, is_blank, push_bool,
    push_i64, push_str, std_hash_of_str, text};

verus! {

#[derive(Debug, Clone, Copy, PartialEq, Eq, Structural)]
pub enum Phase20CorrectionOperator {
    RestoreInvariant,
    RepairSemanticTrajectory,
    StabilizeInferenceField,
    DampDrift,
}

#[derive(Debug, Clone, PartialEq, Eq)]
pub struct Phase20DriftReport {
    pub drift_detected: bool,
    pub invariant_violation_count: i32,
    pub semantic_divergence_score: i32,
    pub inference_instability_score: i32,
    pub drift_signature: String,
}

#[derive(Debug, Clone, PartialEq, Eq)]
pub struct Phase20CorrectionPlan {
    pub correction_operator: Phase20CorrectionOperator,
    pub target_candidate_signature: String,
    pub target_inference_signature: String,
    pub target_resonance_signature: String,
    pub correction_weight: i32,
    pub correction_signature: String,
    pub plan_well_formed: bool,
}

#[derive(Debug, Clone, PartialEq, Eq)]
pub struct Phase20StabilizedInference {
    pub original_inference_signature: String,
    pub stabilized_inference_signature: String,
    pub stabilized_semantic_label: Phase17SemanticLabel,
    pub stabilization_delta: i32,
    pub stabilization_signature: String,
    pub telemetry_digest: String,
    pub stabilized_well_formed: bool,
}

// ── model ────────────────────────────────────────────────────────────────────

pub open spec fn correction_op_name(op: Phase20CorrectionOperator) -> Seq<char> {
    match op {
        Phase20CorrectionOperator::RestoreInvariant => "RestoreInvariant"@,
        Phase20CorrectionOperator::RepairSemanticTrajectory => "RepairSemanticTrajectory"@,
        Phase20CorrectionOperator::StabilizeInferenceField => "StabilizeInferenceField"@,
        Phase20CorrectionOperator::DampDrift => "DampDrift"@,
    }
}

/// How far a semantic label lies from a coherent reading.
pub open spec fn divergence(label: Phase17SemanticLabel) -> int {
    match label {
        Phase17SemanticLabel::Conflict => 3,
        Phase17SemanticLabel::Contrast => 2,
        Phase17SemanticLabel::EntanglingInfluence => 2,
        Phase17SemanticLabel::Alignment => 0,
        Phase17SemanticLabel::Reinforcement => 0,
    }
}

/// The instability (0..=6) that an inference's signatures carry.
pub open spec fn instability(t: Phase18InferenceTrajectory) -> int {
    (std_hash_of_str(
        "inference="@ + t.inference_signature@ + "|telemetry="@ + t.telemetry_digest@ + "|label="@
            + label_name(t.final_semantic_label),
    ) % 7) as int
}

pub open spec fn violations(t: Phase18InferenceTrajectory) -> int {
    if !t.trajectory_well_formed {
        1
    } else {
        0
    }
}

/// `r` is the drift report of inference `t`.
pub open spec fn is_drift_report_of(r: Phase20DriftReport, t: Phase18InferenceTrajectory) -> bool {
    let inv = violations(t);
    let sem = divergence(t.final_semantic_label);
    let inst = instability(t);
    let detected = inv + sem + inst > 4;
    &&& r.invariant_violation_count == inv
    &&& r.semantic_divergence_score == sem
    &&& r.inference_instability_score == inst
    &&& r.drift_detected == detected
    &&& r.drift_signature@ == hash16(
        "drift="@ + bool_text(detected) + "|inv="@ + dec_int(inv) + "|sem="@ + dec_int(sem)
            + "|inst="@ + dec_int(inst) + "|inf="@ + t.inference_signature@,
    )
}

/// The operator that a drift report calls for: invariants first, then
/// semantic divergence, then instability.
pub open spec fn chosen_operator(r: Phase20DriftReport) -> Phase20CorrectionOperator {
    if r.invariant_violation_count > 0 {
        Phase20CorrectionOperator::RestoreInvariant
    } else if r.semantic_divergence_score > 1 {
        Phase20CorrectionOperator::RepairSemanticTrajectory
    } else if r.inference_instability_score > 2 {
        Phase20CorrectionOperator::StabilizeInferenceField
    } else {
        Phase20CorrectionOperator::DampDrift
    }
}

pub open spec fn correction_weight(r: Phase20DriftReport) -> int {
    r.invariant_violation_count * 5 + r.semantic_divergence_score * 3
        + r.inference_instability_score + if r.drift_detected {
        5int
    } else {
        1int
    }
}

/// `p` is the correction plan for inference `t` and decision `d`, given the
/// drift report `r` of `t`.
pub open spec fn is_plan_of(
    p: Phase20CorrectionPlan,
    t: Phase18InferenceTrajectory,
    d: Phase19ArbitrationDecision,
    r: Phase20DriftReport,
) -> bool {
    let op = chosen_operator(r);
    let w = correction_weight(r);
    &&& p.correction_operator == op
    &&& p.target_candidate_signature@ == d.selected_candidate_signature@
    &&& p.target_inference_signature@ == t.inference_signature@
    &&& p.target_resonance_signature@ == t.resonance_signature@
    &&& p.correction_weight == w
    &&& p.correction_signature@ == hash16(
        "op="@ + correction_op_name(op) + "|cand="@ + d.selected_candidate_signature@ + "|inf="@
            + t.inference_signature@ + "|res="@ + t.resonance_signature@ + "|w="@ + dec_int(w)
            + "|drift="@ + r.drift_signature@,
    )
    &&& p.plan_well_formed
}

/// The label that a correction settles the inference on.
pub open spec fn stabilized_label(
    op: Phase20CorrectionOperator,
    label: Phase17SemanticLabel,
) -> Phase17SemanticLabel {
    match op {
        Phase20CorrectionOperator::RestoreInvariant => Phase17SemanticLabel::Alignment,
        Phase20CorrectionOperator::RepairSemanticTrajectory => Phase17SemanticLabel::Reinforcement,
        Phase20CorrectionOperator::StabilizeInferenceField => label,
        Phase20CorrectionOperator::DampDrift => label,
    }
}

/// `s` is inference `t` stabilized by plan `p`.
pub open spec fn is_stabilized_of(
    s: Phase20StabilizedInference,
    t: Phase18InferenceTrajectory,
    p: Phase20CorrectionPlan,
) -> bool {
    let delta = p.correction_weight + t.inference_steps@.len();
    let label = stabilized_label(p.correction_operator, t.final_semantic_label);
    let stab = hash16(
        "orig="@ + t.inference_signature@ + "|plan="@ + p.correction_signature@ + "|delta="@
            + dec_int(delta) + "|label="@ + label_name(label),
    );
    let sig = hash16(
        "res="@ + t.resonance_signature@ + "|orig="@ + t.inference_signature@ + "|stab="@ + stab
            + "|op="@ + correction_op_name(p.correction_operator),
    );
    &&& s.original_inference_signature@ == t.inference_signature@
    &&& s.stabilized_inference_signature@ == stab
    &&& s.stabilized_semantic_label == label
    &&& s.stabilization_delta == delta
    &&& s.stabilization_signature@ == sig
    &&& s.telemetry_digest@ == hash16(
        "stabilization_signature="@ + sig + "|label="@ + label_name(label) + "|delta="@ + dec_int(
            delta,
        ),
    )
    &&& s.stabilized_well_formed
}

/// The verdict of `phase20_validate_correction_plan_invariants`.
pub open spec fn plan_error(p: Phase20CorrectionPlan) -> Option<Seq<char>> {
    if !p.plan_well_formed {
        Some("phase20_plan_marked_malformed"@)
    } else if p.target_candidate_signature@.len() == 0 {
        Some("phase20_target_candidate_signature_empty"@)
    } else if p.target_inference_signature@.len() == 0 {
        Some("phase20_target_inference_signature_empty"@)
    } else if p.target_resonance_signature@.len() == 0 {
        Some("phase20_target_resonance_signature_empty"@)
    } else if p.correction_signature@.len() == 0 {
        Some("phase20_correction_signature_empty"@)
    } else if p.correction_weight < 0 {
        Some("phase20_correction_weight_negative"@)
    } else {
        None
    }
}

/// The verdict of `phase20_validate_stabilized_inference_invariants`.
pub open spec fn stabilized_error(s: Phase20StabilizedInference) -> Option<Seq<char>> {
    if !s.stabilized_well_formed {
        Some("phase20_stabilized_marked_malformed"@)
    } else if s.original_inference_signature@.len() == 0 {
        Some("phase20_original_inference_signature_empty"@)
    } else if s.stabilized_inference_signature@.len() == 0 {
        Some("phase20_stabilized_inference_signature_empty"@)
    } else if s.stabilization_signature@.len() == 0 {
        Some("phase20_stabilization_signature_empty"@)
    } else if s.telemetry_digest@.len() == 0 {
        Some("phase20_telemetry_digest_empty"@)
    } else {
        None
    }
}

/// The telemetry line published for a correction plan.
pub open spec fn correction_line(p: Phase20CorrectionPlan) -> Seq<char> {
    "op="@ + correction_op_name(p.correction_operator) + ":candidate="@
        + p.target_candidate_signature@ + ":inference="@ + p.target_inference_signature@
        + ":resonance="@ + p.target_resonance_signature@ + ":weight="@ + dec_int(
        p.correction_weight as int,
    ) + ":signature="@ + p.correction_signature@ + ":well_formed="@ + bool_text(
        p.plan_well_formed,
    )
}

/// The telemetry line published for a stabilized inference.
pub open spec fn stabilization_line(s: Phase20StabilizedInference) -> Seq<char> {
    "orig="@ + s.original_inference_signature@ + ":stabilized="@
        + s.stabilized_inference_signature@ + ":label="@ + label_name(s.stabilized_semantic_label)
        + ":delta="@ + dec_int(s.stabilization_delta as int) + ":sig="@
        + s.stabilization_signature@ + ":digest="@ + s.telemetry_digest@ + ":well_formed="@
        + bool_text(s.stabilized_well_formed)
}

// ── kernel ───────────────────────────────────────────────────────────────────

fn phase20_op_name(op: Phase20CorrectionOperator) -> (s: &'static str)
    ensures
        s@ == correction_op_name(op),
{
    match op {
        Phase20CorrectionOperator::RestoreInvariant => "RestoreInvariant",
        Phase20CorrectionOperator::RepairSemanticTrajectory => "RepairSemanticTrajectory",
        Phase20CorrectionOperator::StabilizeInferenceField => "StabilizeInferenceField",
        Phase20CorrectionOperator::DampDrift => "DampDrift",
    }
}

fn phase20_label_name(l: Phase17SemanticLabel) -> (s: &'static str)
    ensures
        s@ == label_name(l),
{
    match l {
        Phase17SemanticLabel::Alignment => "Alignment",
        Phase17SemanticLabel::Contrast => "Contrast",
        Phase17SemanticLabel::Reinforcement => "Reinforcement",
        Phase17SemanticLabel::Conflict => "Conflict",
        Phase17SemanticLabel::EntanglingInfluence => "EntanglingInfluence",
    }
}

/// Measures the drift of a governed inference: invariant violations,
/// semantic divergence of its final label and a hash-derived instability.
pub fn phase20_detect_drift(inference: &Phase18InferenceTrajectory) -> (r: Result<
    Phase20DriftReport,
    String,
>)
    ensures
        match r {
            Ok(d) => inference_error(*inference) is None && is_drift_report_of(d, *inference),
            Err(e) => inference_error(*inference) == Some(e@),
        },
{
    match phase18_validate_inference_trajectory_invariants(inference) {
        Ok(_) => {},
        Err(e) => return Err(e),
    }
    let mut seed_input = text("inference=");
    push_str(&mut seed_input, inference.inference_signature.as_str());
    push_str(&mut seed_input, "|telemetry=");
    push_str(&mut seed_input, inference.telemetry_digest.as_str());
    push_str(&mut seed_input, "|label=");
    push_str(&mut seed_input, phase20_label_name(inference.final_semantic_label));
    let seed = default_hash_str(seed_input.as_str());
    let inference_instability_score = (seed % 7) as i32;
    let semantic_divergence_score: i32 = match inference.final_semantic_label {
        Phase17SemanticLabel::Conflict => 3,
        Phase17SemanticLabel::Contrast => 2,
        Phase17SemanticLabel::EntanglingInfluence => 2,
        Phase17SemanticLabel::Alignment => 0,
        Phase17SemanticLabel::Reinforcement => 0,
    };
    let invariant_violation_count: i32 = if !inference.trajectory_well_formed {
        1
    } else {
        0
    };
    let drift_detected = (invariant_violation_count + semantic_divergence_score
        + inference_instability_score) > 4;
    let mut input = text("drift=");
    push_bool(&mut input, drift_detected);
    push_str(&mut input, "|inv=");
    push_i64(&mut input, invariant_violation_count as i64);
    push_str(&mut input, "|sem=");
    push_i64(&mut input, semantic_divergence_score as i64);
    push_str(&mut input, "|inst=");
    push_i64(&mut input, inference_instability_score as i64);
    push_str(&mut input, "|inf=");
    push_str(&mut input, inference.inference_signature.as_str());
    let drift_signature = hash_text(input.as_str());
    Ok(
        Phase20DriftReport {
            drift_detected,
            invariant_violation_count,
            semantic_divergence_score,
            inference_instability_score,
            drift_signature,
        },
    )
}

/// Plans the correction of a governed inference for an arbitration decision.
pub fn phase20_build_correction_plan(
    inference: &Phase18InferenceTrajectory,
    decision: &Phase19ArbitrationDecision,
) -> (r: Result<Phase20CorrectionPlan, String>)
    ensures
        match r {
            Ok(p) => {
                &&& inference_error(*inference) is None
                &&& decision_error(*decision) is None
                &&& exists|d: Phase20DriftReport|
                    is_drift_report_of(d, *inference) && #[trigger] is_plan_of(
                        p,
                        *inference,
                        *decision,
                        d,
                    )
            },
            Err(e) => if inference_error(*inference) is Some {
                inference_error(*inference) == Some(e@)
            } else {
                decision_error(*decision) == Some(e@)
            },
        },
{
    match phase18_validate_inference_trajectory_invariants(inference) {
        Ok(_) => {},
        Err(e) => return Err(e),
    }
    match phase19_validate_arbitration_decision_invariants(decision) {
        Ok(_) => {},
        Err(e) => return Err(e),
    }
    let drift = match phase20_detect_drift(inference) {
        Ok(d) => d,
        Err(e) => return Err(e),
    };
    let correction_operator = if drift.invariant_violation_count > 0 {
        Phase20CorrectionOperator::RestoreInvariant
    } else if drift.semantic_divergence_score > 1 {
        Phase20CorrectionOperator::RepairSemanticTrajectory
    } else if drift.inference_instability_score > 2 {
        Phase20CorrectionOperator::StabilizeInferenceField
    } else {
        Phase20CorrectionOperator::DampDrift
    };
    let bonus: i32 = if drift.drift_detected {
        5
    } else {
        1
    };
    let correction_weight = drift.invariant_violation_count * 5 + drift.semantic_divergence_score
        * 3 + drift.inference_instability_score + bonus;
    let mut input = text("op=");
    push_str(&mut input, phase20_op_name(correction_operator));
    push_str(&mut input, "|cand=");
    push_str(&mut input, decision.selected_candidate_signature.as_str());
    push_str(&mut input, "|inf=");
    push_str(&mut input, inference.inference_signature.as_str());
    push_str(&mut input, "|res=");
    push_str(&mut input, inference.resonance_signature.as_str());
    push_str(&mut input, "|w=");
    push_i64(&mut input, correction_weight as i64);
    push_str(&mut input, "|drift=");
    push_str(&mut input, drift.drift_signature.as_str());
    let correction_signature = hash_text(input.as_str());
    let plan = Phase20CorrectionPlan {
        correction_operator,
        target_candidate_signature: decision.selected_candidate_signature.clone(),
        target_inference_signature: inference.inference_signature.clone(),
        target_resonance_signature: inference.resonance_signature.clone(),
        correction_weight,
        correction_signature,
        plan_well_formed: true,
    };
    assert(is_plan_of(plan, *inference, *decision, drift));
    Ok(plan)
}

/// Applies a governed correction plan to a governed inference.
pub fn phase20_apply_self_correction(
    inference: &Phase18InferenceTrajectory,
    plan: &Phase20CorrectionPlan,
) -> (r: Result<Phase20StabilizedInference, String>)
    requires
        inference_error(*inference) is None && plan_error(*plan) is None
            ==> plan.correction_weight + inference.inference_steps@.len() <= i32::MAX,
    ensures
        match r {
            Ok(s) => {
                &&& inference_error(*inference) is None
                &&& plan_error(*plan) is None
                &&& is_stabilized_of(s, *inference, *plan)
            },
            Err(e) => if inference_error(*inference) is Some {
                inference_error(*inference) == Some(e@)
            } else {
                plan_error(*plan) == Some(e@)
            },
        },
{
    match phase18_validate_inference_trajectory_invariants(inference) {
        Ok(_) => {},
        Err(e) => return Err(e),
    }
    match phase20_validate_correction_plan_invariants(plan) {
        Ok(_) => {},
        Err(e) => return Err(e),
    }
    let stabilization_delta = plan.correction_weight + (inference.inference_steps.len() as i32);
    let stabilized_semantic_label = match plan.correction_operator {
        Phase20CorrectionOperator::RestoreInvariant => Phase17SemanticLabel::Alignment,
        Phase20CorrectionOperator::RepairSemanticTrajectory => Phase17SemanticLabel::Reinforcement,
        Phase20CorrectionOperator::StabilizeInferenceField => inference.final_semantic_label,
        Phase20CorrectionOperator::DampDrift => inference.final_semantic_label,
    };
    let mut input = text("orig=");
    push_str(&mut input, inference.inference_signature.as_str());
    push_str(&mut input, "|plan=");
    push_str(&mut input, plan.correction_signature.as_str());
    push_str(&mut input, "|delta=");
    push_i64(&mut input, stabilization_delta as i64);
    push_str(&mut input, "|label=");
    push_str(&mut input, phase20_label_name(stabilized_semantic_label));
    let stabilized_inference_signature = hash_text(input.as_str());
    let mut input2 = text("res=");
    push_str(&mut input2, inference.resonance_signature.as_str());
    push_str(&mut input2, "|orig=");
    push_str(&mut input2, inference.inference_signature.as_str());
    push_str(&mut input2, "|stab=");
    push_str(&mut input2, stabilized_inference_signature.as_str());
    push_str(&mut input2, "|op=");
    push_str(&mut input2, phase20_op_name(plan.correction_operator));
    let stabilization_signature = hash_text(input2.as_str());
    let mut input3 = text("stabilization_signature=");
    push_str(&mut input3, stabilization_signature.as_str());
    push_str(&mut input3, "|label=");
    push_str(&mut input3, phase20_label_name(stabilized_semantic_label));
    push_str(&mut input3, "|delta=");
    push_i64(&mut input3, stabilization_delta as i64);
    let telemetry_digest = hash_text(input3.as_str());
    Ok(
        Phase20StabilizedInference {
            original_inference_signature: inference.inference_signature.clone(),
            stabilized_inference_signature,
            stabilized_semantic_label,
            stabilization_delta,
            stabilization_signature,
            telemetry_digest,
            stabilized_well_formed: true,
        },
    )
}

/// A correction plan for a governed inference and a governed decision passes
/// the plan governance checks, and its weight stays small.
pub proof fn lemma_plan_is_governed(
    p: Phase20CorrectionPlan,
    t: Phase18InferenceTrajectory,
    d: Phase19ArbitrationDecision,
    r: Phase20DriftReport,
)
    requires
        inference_error(t) is None,
        decision_error(d) is None,
        is_drift_report_of(r, t),
        is_plan_of(p, t, d, r),
    ensures
        plan_error(p) is None,
        0 <= p.correction_weight <= 20,
{
    let op = chosen_operator(r);
    crate::text::lemma_hash16_len(
        "op="@ + correction_op_name(op) + "|cand="@ + d.selected_candidate_signature@ + "|inf="@
            + t.inference_signature@ + "|res="@ + t.resonance_signature@ + "|w="@ + dec_int(
            correction_weight(r),
        ) + "|drift="@ + r.drift_signature@,
    );
}

/// Which correction a plan makes: a malformed inference has its invariants
/// restored; a well-formed one whose final label is Conflict, Contrast or
/// EntanglingInfluence has its semantic trajectory repaired, whatever its
/// instability; one whose label is Alignment or Reinforcement has its field
/// stabilized when the instability exceeds 2, its drift damped otherwise.
pub proof fn lemma_plan_operator(
    p: Phase20CorrectionPlan,
    t: Phase18InferenceTrajectory,
    d: Phase19ArbitrationDecision,
    r: Phase20DriftReport,
)
    requires
        is_drift_report_of(r, t),
        is_plan_of(p, t, d, r),
    ensures
        !t.trajectory_well_formed ==> p.correction_operator == Phase20CorrectionOperator::RestoreInvariant,
        t.trajectory_well_formed && (t.final_semantic_label == Phase17SemanticLabel::Conflict
            || t.final_semantic_label == Phase17SemanticLabel::Contrast || t.final_semantic_label
            == Phase17SemanticLabel::EntanglingInfluence) ==> p.correction_operator
            == Phase20CorrectionOperator::RepairSemanticTrajectory,
        t.trajectory_well_formed && (t.final_semantic_label == Phase17SemanticLabel::Alignment
            || t.final_semantic_label == Phase17SemanticLabel::Reinforcement) ==> p.correction_operator == (
        if r.inference_instability_score > 2 {
            Phase20CorrectionOperator::StabilizeInferenceField
        } else {
            Phase20CorrectionOperator::DampDrift
        }),
{
}

/// What a drift report measures: one violation for a malformed inference
/// and none otherwise; a semantic divergence of 3 for Conflict, 2 for
/// Contrast and EntanglingInfluence, 0 for Alignment and Reinforcement; an
/// instability in 0..=6; and drift is detected exactly when the three add up
/// to more than 4.
pub proof fn lemma_drift_measures(r: Phase20DriftReport, t: Phase18InferenceTrajectory)
    requires
        is_drift_report_of(r, t),
    ensures
        r.invariant_violation_count == (if t.trajectory_well_formed { 0int } else { 1int }),
        t.final_semantic_label == Phase17SemanticLabel::Conflict ==> r.semantic_divergence_score == 3,
        t.final_semantic_label == Phase17SemanticLabel::Contrast ==> r.semantic_divergence_score == 2,
        t.final_semantic_label == Phase17SemanticLabel::EntanglingInfluence ==> r.semantic_divergence_score == 2,
        t.final_semantic_label == Phase17SemanticLabel::Alignment ==> r.semantic_divergence_score == 0,
        t.final_semantic_label == Phase17SemanticLabel::Reinforcement ==> r.semantic_divergence_score == 0,
        0 <= r.inference_instability_score <= 6,
        r.drift_detected == (r.invariant_violation_count + r.semantic_divergence_score
            + r.inference_instability_score > 4),
{
}

/// How heavy a correction is: 5 per invariant violation, 3 per point of
/// semantic divergence, 1 per point of instability, plus 5 when drift was
/// detected and 1 when it was not.
pub proof fn lemma_plan_weight(
    p: Phase20CorrectionPlan,
    t: Phase18InferenceTrajectory,
    d: Phase19ArbitrationDecision,
    r: Phase20DriftReport,
)
    requires
        is_drift_report_of(r, t),
        is_plan_of(p, t, d, r),
    ensures
        p.correction_weight == 5 * r.invariant_violation_count + 3 * r.semantic_divergence_score
            + r.inference_instability_score + (if r.drift_detected { 5int } else { 1int }),
        p.target_candidate_signature@ == d.selected_candidate_signature@,
        p.target_inference_signature@ == t.inference_signature@,
{
}

/// What a correction settles on: restoring invariants yields Alignment,
/// repairing the semantic trajectory yields Reinforcement, stabilizing or
/// damping keeps the inference's label; the delta is the plan's weight plus
/// the number of inference steps.
pub proof fn lemma_stabilized_label(s: Phase20StabilizedInference, t: Phase18InferenceTrajectory, p: Phase20CorrectionPlan)
    requires
        is_stabilized_of(s, t, p),
    ensures
        p.correction_operator == Phase20CorrectionOperator::RestoreInvariant ==> s.stabilized_semantic_label
            == Phase17SemanticLabel::Alignment,
        p.correction_operator == Phase20CorrectionOperator::RepairSemanticTrajectory ==> s.stabilized_semantic_label
            == Phase17SemanticLabel::Reinforcement,
        p.correction_operator == Phase20CorrectionOperator::StabilizeInferenceField ==> s.stabilized_semantic_label
            == t.final_semantic_label,
        p.correction_operator == Phase20CorrectionOperator::DampDrift ==> s.stabilized_semantic_label
            == t.final_semantic_label,
        s.stabilization_delta == p.correction_weight + t.inference_steps@.len(),
{
}

/// Checks the correction plan governance invariants.
pub fn phase20_validate_correction_plan_invariants(plan: &Phase20CorrectionPlan) -> (r: Result<
    (),
    String,
>)
    ensures
        match r {
            Ok(_) => plan_error(*plan) is None,
            Err(e) => plan_error(*plan) == Some(e@),
        },
{
    if !plan.plan_well_formed {
        return Err(text("phase20_plan_marked_malformed"));
    }
    if is_blank(&plan.target_candidate_signature) {
        return Err(text("phase20_target_candidate_signature_empty"));
    }
    if is_blank(&plan.target_inference_signature) {
        return Err(text("phase20_target_inference_signature_empty"));
    }
    if is_blank(&plan.target_resonance_signature) {
        return Err(text("phase20_target_resonance_signature_empty"));
    }
    if is_blank(&plan.correction_signature) {
        return Err(text("phase20_correction_signature_empty"));
    }
    if plan.correction_weight < 0 {
        return Err(text("phase20_correction_weight_negative"));
    }
    Ok(())
}

/// Checks the stabilized inference governance invariants.
pub fn phase20_validate_stabilized_inference_invariants(
    stabilized: &Phase20StabilizedInference,
) -> (r: Result<(), String>)
    ensures
        match r {
            Ok(_) => stabilized_error(*stabilized) is None,
            Err(e) => stabilized_error(*stabilized) == Some(e@),
        },
{
    if !stabilized.stabilized_well_formed {
        return Err(text("phase20_stabilized_marked_malformed"));
    }
    if is_blank(&stabilized.original_inference_signature) {
        return Err(text("phase20_original_inference_signature_empty"));
    }
    if is_blank(&stabilized.stabilized_inference_signature) {
        return Err(text("phase20_stabilized_inference_signature_empty"));
    }
    if is_blank(&stabilized.stabilization_signature) {
        return Err(text("phase20_stabilization_signature_empty"));
    }
    if is_blank(&stabilized.telemetry_digest) {
        return Err(text("phase20_telemetry_digest_empty"));
    }
    Ok(())
}

/// The telemetry line for a correction plan.
pub fn phase20_correction_telemetry_line(plan: &Phase20CorrectionPlan) -> (line: String)
    ensures
        line@ == correction_line(*plan),
{
    let mut line = text("op=");
    push_str(&mut line, phase20_op_name(plan.correction_operator));
    push_str(&mut line, ":candidate=");
    push_str(&mut line, plan.target_candidate_signature.as_str());
    push_str(&mut line, ":inference=");
    push_str(&mut line, plan.target_inference_signature.as_str());
    push_str(&mut line, ":resonance=");
    push_str(&mut line, plan.target_resonance_signature.as_str());
    push_str(&mut line, ":weight=");
    push_i64(&mut line, plan.correction_weight as i64);
    push_str(&mut line, ":signature=");
    push_str(&mut line, plan.correction_signature.as_str());
    push_str(&mut line, ":well_formed=");
    push_bool(&mut line, plan.plan_well_formed);
    line
}

/// The telemetry line for a stabilized inference.
pub fn phase20_stabilization_telemetry_line(stabilized: &Phase20StabilizedInference) -> (line:
    String)
    ensures
        line@ == stabilization_line(*stabilized),
{
    let mut line = text("orig=");
    push_str(&mut line, stabilized.original_inference_signature.as_str());
    push_str(&mut line, ":stabilized=");
    push_str(&mut line, stabilized.stabilized_inference_signature.as_str());
    push_str(&mut line, ":label=");
    push_str(&mut line, phase20_label_name(stabilized.stabilized_semantic_label));
    push_str(&mut line, ":delta=");
    push_i64(&mut line, stabilized.stabilization_delta as i64);
    push_str(&mut line, ":sig=");
    push_str(&mut line, stabilized.stabilization_signature.as_str());
    push_str(&mut line, ":digest=");
    push_str(&mut line, stabilized.telemetry_digest.as_str());
    push_str(&mut line, ":well_formed=");
    push_bool(&mut line, stabilized.stabilized_well_formed);
    line
}

} // verus!
