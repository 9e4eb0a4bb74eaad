//! Resonance inference: a weighted resonance field derived from signatures,
//! an influence operator chosen from it, and the re-inference of a thought
//! trajectory step by step under that operator.
use vstd::prelude::*;
use crate::cognition::phase15_two_qubit_semantic_binding::{binding_kind_name, Phase15BindingKind};
use crate::cognition::phase16_thought_path_trajectories::{
    phase16_validate_trajectory_invariants, trajectory_error, Phase16ThoughtStep,
    Phase16ThoughtTrajectory,
};
use crate::cognition::phase17_semantic_measurement_operators::{label_name, Phase17SemanticLabel};
use crate::text::{bool_text, dec_nat, push_bool, dec_int, default_hash_str, hash16, hash_text, is_blank, join, join_strings,
    push_i64, push_str, push_usize, std_hash_of_str, text, views};

verus! {

#[derive(Debug, Clone, Copy, PartialEq, Eq, Structural)]
pub enum Phase18InfluenceOperator {
    FavorStability,
    FavorEntangling,
    FavorContrast,
    DampenConflict,
}

#[derive(Debug, Clone, PartialEq, Eq)]
pub struct Phase18ResonanceField {
    pub operator_signature: String,
    pub binding_signature: String,
    pub trajectory_signature: String,
    pub operator_weight: i32,
    pub binding_weight: i32,
    pub trajectory_weight: i32,
    pub total_weight: i32,
    pub resonance_signature: String,
    pub field_well_formed: bool,
}

#[derive(Debug, Clone, PartialEq, Eq)]
pub struct Phase18InferenceStep {
    pub step_index: usize,
    pub input_step_signature: String,
    pub influence_operator: Phase18InfluenceOperator,
    pub resonance_weight: i32,
    pub output_step: Phase16ThoughtStep,
    pub inference_step_signature: String,
}

#[derive(Debug, Clone, PartialEq, Eq)]
pub struct Phase18InferenceTrajectory {
    pub initial_trajectory_signature: String,
    pub resonance_signature: String,
    pub influence_operator: Phase18InfluenceOperator,
    pub inference_steps: Vec<Phase18InferenceStep>,
    pub final_step_signature: String,
    pub final_semantic_label: Phase17SemanticLabel,
    pub inference_signature: String,
    pub telemetry_digest: String,
    pub trajectory_well_formed: bool,
}

// ── model ────────────────────────────────────────────────────────────────────

pub open spec fn influence_name(o: Phase18InfluenceOperator) -> Seq<char> {
    match o {
        Phase18InfluenceOperator::FavorStability => "FavorStability"@,
        Phase18InfluenceOperator::FavorEntangling => "FavorEntangling"@,
        Phase18InfluenceOperator::FavorContrast => "FavorContrast"@,
        Phase18InfluenceOperator::DampenConflict => "DampenConflict"@,
    }
}

/// The weight (1..=97) that a signature carries under a salt.
pub open spec fn weight18(signature: Seq<char>, salt: Seq<char>) -> int {
    (std_hash_of_str(salt + "|"@ + signature) % 97) as int + 1
}

pub open spec fn resonance_sig_input(op: Seq<char>, binding: Seq<char>, traj: Seq<char>) -> Seq<char> {
    let ow = weight18(op, "op"@);
    let bw = weight18(binding, "binding"@);
    let tw = weight18(traj, "trajectory"@);
    "op="@ + op + "|binding="@ + binding + "|trajectory="@ + traj + "|ow="@ + dec_int(ow) + "|bw="@
        + dec_int(bw) + "|tw="@ + dec_int(tw) + "|sum="@ + dec_int(ow + bw + tw)
}

/// The verdict of `phase18_validate_resonance_field_invariants`.
pub open spec fn field_error(f: Phase18ResonanceField) -> Option<Seq<char>> {
    if !f.field_well_formed {
        Some("phase18_resonance_field_marked_malformed"@)
    } else if f.operator_signature@.len() == 0 {
        Some("phase18_operator_signature_empty"@)
    } else if f.binding_signature@.len() == 0 {
        Some("phase18_binding_signature_empty"@)
    } else if f.trajectory_signature@.len() == 0 {
        Some("phase18_trajectory_signature_empty"@)
    } else if f.resonance_signature@.len() == 0 {
        Some("phase18_resonance_signature_empty"@)
    } else if f.total_weight != f.operator_weight + f.binding_weight + f.trajectory_weight {
        Some("phase18_total_weight_mismatch"@)
    } else {
        None
    }
}

pub open spec fn select_operator(total: int) -> Phase18InfluenceOperator {
    let r = total % 4;
    if r == 0 {
        Phase18InfluenceOperator::FavorStability
    } else if r == 1 {
        Phase18InfluenceOperator::FavorEntangling
    } else if r == 2 {
        Phase18InfluenceOperator::FavorContrast
    } else {
        Phase18InfluenceOperator::DampenConflict
    }
}

pub open spec fn modulate(
    original: Phase15BindingKind,
    op: Phase18InfluenceOperator,
    weight: int,
) -> Phase15BindingKind {
    match op {
        Phase18InfluenceOperator::FavorStability => if weight % 2 == 0 {
            Phase15BindingKind::Correlated
        } else {
            original
        },
        Phase18InfluenceOperator::FavorEntangling => Phase15BindingKind::EntanglingOpApplied,
        Phase18InfluenceOperator::FavorContrast => Phase15BindingKind::AntiCorrelated,
        Phase18InfluenceOperator::DampenConflict => if original == Phase15BindingKind::Separable {
            Phase15BindingKind::Correlated
        } else {
            original
        },
    }
}

pub open spec fn kind_label(k: Phase15BindingKind) -> Phase17SemanticLabel {
    match k {
        Phase15BindingKind::Correlated => Phase17SemanticLabel::Reinforcement,
        Phase15BindingKind::AntiCorrelated => Phase17SemanticLabel::Contrast,
        Phase15BindingKind::Separable => Phase17SemanticLabel::Conflict,
        Phase15BindingKind::EntanglingOpApplied => Phase17SemanticLabel::EntanglingInfluence,
    }
}

/// The resonance weight of an input step: the field's total plus the step's
/// index taken as an `i32`.
pub open spec fn step_weight(input: Phase16ThoughtStep, f: Phase18ResonanceField) -> int {
    f.total_weight + (input.step_index as i32)
}

/// `s` is the inference of `input` under field `f` and operator `op`.
pub open spec fn is_inference_step(
    s: Phase18InferenceStep,
    input: Phase16ThoughtStep,
    f: Phase18ResonanceField,
    op: Phase18InfluenceOperator,
) -> bool {
    let w = step_weight(input, f);
    let out_kind = modulate(input.to_binding_kind, op, w);
    let out_to = hash16(
        "from="@ + input.from_binding_signature@ + "|op="@ + input.op_signature@ + "|influence="@
            + influence_name(op) + "|resonance="@ + dec_int(w) + "|old_to="@
            + input.to_binding_signature@ + "|res_sig="@ + f.resonance_signature@,
    );
    let out_sig = hash16(
        "idx="@ + dec_int(input.step_index as int) + "|from="@ + input.from_binding_signature@
            + "|op="@ + input.op_signature@ + "|to="@ + out_to + "|kind="@ + binding_kind_name(
            out_kind,
        ),
    );
    &&& s.step_index == input.step_index
    &&& s.input_step_signature@ == input.step_signature@
    &&& s.influence_operator == op
    &&& s.resonance_weight == w
    &&& s.output_step.step_index == input.step_index
    &&& s.output_step.from_binding_signature@ == input.from_binding_signature@
    &&& s.output_step.op_signature@ == input.op_signature@
    &&& s.output_step.to_binding_signature@ == out_to
    &&& s.output_step.to_binding_kind == out_kind
    &&& s.output_step.step_signature@ == out_sig
    &&& s.inference_step_signature@ == hash16(
        "input="@ + input.step_signature@ + "|output="@ + out_sig + "|op="@ + influence_name(op)
            + "|w="@ + dec_int(w) + "|res="@ + f.resonance_signature@,
    )
}

pub open spec fn inference_sigs(steps: Seq<Phase18InferenceStep>) -> Seq<Seq<char>> {
    steps.map_values(|s: Phase18InferenceStep| s.inference_step_signature@)
}

/// The first inference step, from `i` on, whose index or signature is off.
pub open spec fn first_bad_inference_step(steps: Seq<Phase18InferenceStep>, i: int) -> Option<
    Seq<char>,
>
    decreases steps.len() - i,
{
    if i < 0 || i >= steps.len() {
        None
    } else if steps[i].step_index != i {
        Some(
            "phase18_step_index_mismatch: expected "@ + dec_int(i) + " got "@ + dec_int(
                steps[i].step_index as int,
            ),
        )
    } else if steps[i].inference_step_signature@.len() == 0 {
        Some("phase18_inference_step_signature_empty at step "@ + dec_int(i))
    } else {
        first_bad_inference_step(steps, i + 1)
    }
}

/// The verdict of `phase18_validate_inference_trajectory_invariants`.
pub open spec fn inference_error(t: Phase18InferenceTrajectory) -> Option<Seq<char>> {
    if !t.trajectory_well_formed {
        Some("phase18_inference_trajectory_marked_malformed"@)
    } else if t.initial_trajectory_signature@.len() == 0 {
        Some("phase18_initial_trajectory_signature_empty"@)
    } else if t.resonance_signature@.len() == 0 {
        Some("phase18_resonance_signature_empty"@)
    } else if t.final_step_signature@.len() == 0 {
        Some("phase18_final_step_signature_empty"@)
    } else if t.inference_signature@.len() == 0 {
        Some("phase18_inference_signature_empty"@)
    } else if t.telemetry_digest@.len() == 0 {
        Some("phase18_telemetry_digest_empty"@)
    } else {
        first_bad_inference_step(t.inference_steps@, 0)
    }
}

/// `f` is the resonance field of the three signatures.
pub open spec fn is_field_of(f: Phase18ResonanceField, op: Seq<char>, binding: Seq<char>, traj: Seq<
    char,
>) -> bool {
    &&& f.operator_signature@ == op
    &&& f.binding_signature@ == binding
    &&& f.trajectory_signature@ == traj
    &&& f.operator_weight == weight18(op, "op"@)
    &&& f.binding_weight == weight18(binding, "binding"@)
    &&& f.trajectory_weight == weight18(traj, "trajectory"@)
    &&& f.total_weight == f.operator_weight + f.binding_weight + f.trajectory_weight
    &&& f.resonance_signature@ == hash16(resonance_sig_input(op, binding, traj))
    &&& f.field_well_formed
}

/// `t` is the re-inference of `trajectory` under field `field`.
pub open spec fn is_inference_of(
    t: Phase18InferenceTrajectory,
    trajectory: Phase16ThoughtTrajectory,
    field: Phase18ResonanceField,
) -> bool {
    let op = select_operator(field.total_weight as int);
    let steps = t.inference_steps@;
    let fin = final_step_sig(steps, trajectory.trajectory_signature@);
    let label = final_label(steps);
    let inf = hash16(
        "initial="@ + trajectory.trajectory_signature@ + "|resonance="@ + field.resonance_signature@
            + "|operator="@ + influence_name(op) + "|steps=["@ + join(inference_sigs(steps), "|"@)
            + "]|final_step="@ + fin + "|label="@ + label_name(label),
    );
    &&& t.initial_trajectory_signature@ == trajectory.trajectory_signature@
    &&& t.resonance_signature@ == field.resonance_signature@
    &&& t.influence_operator == op
    &&& steps.len() == trajectory.steps@.len()
    &&& forall|k: int|
        0 <= k < steps.len() ==> is_inference_step(#[trigger] steps[k], trajectory.steps@[k], field, op)
    &&& t.final_step_signature@ == fin
    &&& t.final_semantic_label == label
    &&& t.inference_signature@ == inf
    &&& t.telemetry_digest@ == hash16(
        "resonance="@ + field.resonance_signature@ + "|inference="@ + inf + "|label="@ + label_name(
            label,
        ) + "|count="@ + dec_int(steps.len() as int),
    )
    &&& t.trajectory_well_formed
}

proof fn lemma_inference_steps_ok(
    steps: Seq<Phase18InferenceStep>,
    inputs: Seq<Phase16ThoughtStep>,
    field: Phase18ResonanceField,
    op: Phase18InfluenceOperator,
    i: int,
)
    requires
        0 <= i,
        steps.len() == inputs.len(),
        forall|k: int| 0 <= k < steps.len() ==> is_inference_step(#[trigger] steps[k], inputs[k], field, op),
        forall|k: int| 0 <= k < inputs.len() ==> (#[trigger] inputs[k]).step_index == k,
    ensures
        first_bad_inference_step(steps, i) is None,
    decreases steps.len() - i,
{
    if i < steps.len() {
        assert(is_inference_step(steps[i], inputs[i], field, op));
        assert(inputs[i].step_index == i);
        let w = step_weight(inputs[i], field);
        let out_kind = modulate(inputs[i].to_binding_kind, op, w);
        let out_to = hash16(
            "from="@ + inputs[i].from_binding_signature@ + "|op="@ + inputs[i].op_signature@
                + "|influence="@ + influence_name(op) + "|resonance="@ + dec_int(w) + "|old_to="@
                + inputs[i].to_binding_signature@ + "|res_sig="@ + field.resonance_signature@,
        );
        let out_sig = hash16(
            "idx="@ + dec_int(inputs[i].step_index as int) + "|from="@
                + inputs[i].from_binding_signature@ + "|op="@ + inputs[i].op_signature@ + "|to="@
                + out_to + "|kind="@ + binding_kind_name(out_kind),
        );
        crate::text::lemma_hash16_len(
            "input="@ + inputs[i].step_signature@ + "|output="@ + out_sig + "|op="@ + influence_name(
                op,
            ) + "|w="@ + dec_int(w) + "|res="@ + field.resonance_signature@,
        );
        lemma_inference_steps_ok(steps, inputs, field, op, i + 1);
    }
}

/// An inference of a governed trajectory under a governed field passes its
/// own governance checks.
pub proof fn lemma_inference_is_governed(
    t: Phase18InferenceTrajectory,
    trajectory: Phase16ThoughtTrajectory,
    field: Phase18ResonanceField,
)
    requires
        trajectory_error(trajectory) is None,
        field_error(field) is None,
        is_inference_of(t, trajectory, field),
    ensures
        inference_error(t) is None,
{
    let op = select_operator(field.total_weight as int);
    let steps = t.inference_steps@;
    crate::cognition::phase16_thought_path_trajectories::lemma_no_bad_step(trajectory.steps@, 0);
    lemma_inference_steps_ok(steps, trajectory.steps@, field, op, 0);
    if steps.len() > 0 {
        let k = steps.len() - 1;
        assert(is_inference_step(steps[k], trajectory.steps@[k], field, op));
        let input = trajectory.steps@[k];
        let w = step_weight(input, field);
        let out_kind = modulate(input.to_binding_kind, op, w);
        let out_to = hash16(
            "from="@ + input.from_binding_signature@ + "|op="@ + input.op_signature@ + "|influence="@
                + influence_name(op) + "|resonance="@ + dec_int(w) + "|old_to="@
                + input.to_binding_signature@ + "|res_sig="@ + field.resonance_signature@,
        );
        crate::text::lemma_hash16_len(
            "idx="@ + dec_int(input.step_index as int) + "|from="@ + input.from_binding_signature@
                + "|op="@ + input.op_signature@ + "|to="@ + out_to + "|kind="@ + binding_kind_name(
                out_kind,
            ),
        );
    }
    let fin = final_step_sig(steps, trajectory.trajectory_signature@);
    let label = final_label(steps);
    let inf_input = "initial="@ + trajectory.trajectory_signature@ + "|resonance="@
        + field.resonance_signature@ + "|operator="@ + influence_name(op) + "|steps=["@ + join(
        inference_sigs(steps),
        "|"@,
    ) + "]|final_step="@ + fin + "|label="@ + label_name(label);
    crate::text::lemma_hash16_len(inf_input);
    crate::text::lemma_hash16_len(
        "resonance="@ + field.resonance_signature@ + "|inference="@ + hash16(inf_input) + "|label="@
            + label_name(label) + "|count="@ + dec_int(steps.len() as int),
    );
}

/// No step of a trajectory overflows `i32` when weighted by the field.
pub open spec fn weights_fit(t: Phase16ThoughtTrajectory, f: Phase18ResonanceField) -> bool {
    forall|k: int|
        0 <= k < t.steps@.len() ==> i32::MIN <= #[trigger] step_weight(t.steps@[k], f) <= i32::MAX
}

/// What each influence operator does to a step's binding kind: FavorContrast
/// always steers it to AntiCorrelated and FavorEntangling to
/// EntanglingOpApplied; FavorStability makes it Correlated when the step's
/// resonance weight is even and keeps it otherwise; DampenConflict turns
/// Separable into Correlated and keeps every other kind.
pub proof fn lemma_influence_on_binding_kind(
    s: Phase18InferenceStep,
    input: Phase16ThoughtStep,
    f: Phase18ResonanceField,
    op: Phase18InfluenceOperator,
)
    requires
        is_inference_step(s, input, f, op),
    ensures
        op == Phase18InfluenceOperator::FavorContrast ==> s.output_step.to_binding_kind
            == Phase15BindingKind::AntiCorrelated,
        op == Phase18InfluenceOperator::FavorEntangling ==> s.output_step.to_binding_kind
            == Phase15BindingKind::EntanglingOpApplied,
        op == Phase18InfluenceOperator::FavorStability && s.resonance_weight % 2 == 0 ==> s.output_step.to_binding_kind
            == Phase15BindingKind::Correlated,
        op == Phase18InfluenceOperator::FavorStability && s.resonance_weight % 2 != 0 ==> s.output_step.to_binding_kind
            == input.to_binding_kind,
        op == Phase18InfluenceOperator::DampenConflict && input.to_binding_kind == Phase15BindingKind::Separable
            ==> s.output_step.to_binding_kind == Phase15BindingKind::Correlated,
        op == Phase18InfluenceOperator::DampenConflict && input.to_binding_kind != Phase15BindingKind::Separable
            ==> s.output_step.to_binding_kind == input.to_binding_kind,
{
}

/// Under FavorContrast every inferred step of a trajectory is AntiCorrelated,
/// and a non-empty inference ends on the Contrast label.
pub proof fn lemma_contrast_trajectory(
    t: Phase18InferenceTrajectory,
    trajectory: Phase16ThoughtTrajectory,
    field: Phase18ResonanceField,
)
    requires
        is_inference_of(t, trajectory, field),
        t.influence_operator == Phase18InfluenceOperator::FavorContrast,
    ensures
        forall|k: int|
            0 <= k < t.inference_steps@.len() ==> (#[trigger] t.inference_steps@[k]).output_step.to_binding_kind
                == Phase15BindingKind::AntiCorrelated,
        t.inference_steps@.len() > 0 ==> t.final_semantic_label == Phase17SemanticLabel::Contrast,
{
    assert forall|k: int| 0 <= k < t.inference_steps@.len() implies (#[trigger] t.inference_steps@[k]).output_step.to_binding_kind
        == Phase15BindingKind::AntiCorrelated by {
        lemma_influence_on_binding_kind(t.inference_steps@[k], trajectory.steps@[k], field, t.influence_operator);
    }
    if t.inference_steps@.len() > 0 {
        let n = t.inference_steps@.len() - 1;
        assert(t.inference_steps@.last() == t.inference_steps@[n]);
    }
}

/// The operator an inference runs under follows the field's total weight
/// modulo 4: 0 FavorStability, 1 FavorEntangling, 2 FavorContrast,
/// 3 DampenConflict; and a non-empty inference ends on the label of its last
/// step's binding kind: Correlated reads Reinforcement, AntiCorrelated
/// Contrast, Separable Conflict, EntanglingOpApplied EntanglingInfluence.
pub proof fn lemma_inference_operator_and_label(
    t: Phase18InferenceTrajectory,
    trajectory: Phase16ThoughtTrajectory,
    field: Phase18ResonanceField,
)
    requires
        is_inference_of(t, trajectory, field),
    ensures
        field.total_weight % 4 == 0 ==> t.influence_operator == Phase18InfluenceOperator::FavorStability,
        field.total_weight % 4 == 1 ==> t.influence_operator == Phase18InfluenceOperator::FavorEntangling,
        field.total_weight % 4 == 2 ==> t.influence_operator == Phase18InfluenceOperator::FavorContrast,
        field.total_weight % 4 == 3 ==> t.influence_operator == Phase18InfluenceOperator::DampenConflict,
        t.inference_steps@.len() > 0 && t.inference_steps@.last().output_step.to_binding_kind
            == Phase15BindingKind::Correlated ==> t.final_semantic_label == Phase17SemanticLabel::Reinforcement,
        t.inference_steps@.len() > 0 && t.inference_steps@.last().output_step.to_binding_kind
            == Phase15BindingKind::AntiCorrelated ==> t.final_semantic_label == Phase17SemanticLabel::Contrast,
        t.inference_steps@.len() > 0 && t.inference_steps@.last().output_step.to_binding_kind
            == Phase15BindingKind::Separable ==> t.final_semantic_label == Phase17SemanticLabel::Conflict,
        t.inference_steps@.len() > 0 && t.inference_steps@.last().output_step.to_binding_kind
            == Phase15BindingKind::EntanglingOpApplied ==> t.final_semantic_label
            == Phase17SemanticLabel::EntanglingInfluence,
{
}

// ── kernel ───────────────────────────────────────────────────────────────────

fn phase18_influence_name(o: Phase18InfluenceOperator) -> (s: &'static str)
    ensures
        s@ == influence_name(o),
{
    match o {
        Phase18InfluenceOperator::FavorStability => "FavorStability",
        Phase18InfluenceOperator::FavorEntangling => "FavorEntangling",
        Phase18InfluenceOperator::FavorContrast => "FavorContrast",
        Phase18InfluenceOperator::DampenConflict => "DampenConflict",
    }
}

fn phase18_kind_name(k: Phase15BindingKind) -> (s: &'static str)
    ensures
        s@ == binding_kind_name(k),
{
    match k {
        Phase15BindingKind::Separable => "Separable",
        Phase15BindingKind::Correlated => "Correlated",
        Phase15BindingKind::AntiCorrelated => "AntiCorrelated",
        Phase15BindingKind::EntanglingOpApplied => "EntanglingOpApplied",
    }
}

fn phase18_label_name(l: Phase17SemanticLabel) -> (s: &'static str)
    ensures
        s@ == label_name(l),
{
    match l {
        Phase17SemanticLabel::Alignment => "Alignment",
        Phase17SemanticLabel::Contrast => "Contrast",
        Phase17SemanticLabel::Reinforcement => "Reinforcement",
        Phase17SemanticLabel::Conflict => "Conflict",
        Phase17SemanticLabel::EntanglingInfluence => "EntanglingInfluence",
    }
}

fn phase18_weight(signature: &str, salt: &str) -> (w: i32)
    ensures
        w == weight18(signature@, salt@),
        1 <= w <= 97,
{
    let mut input = text(salt);
    push_str(&mut input, "|");
    push_str(&mut input, signature);
    let h = default_hash_str(input.as_str());
    ((h % 97) as i32) + 1
}

/// Builds the resonance field of three signatures; each must be non-empty.
pub fn phase18_build_resonance_field(
    operator_signature: &str,
    binding_signature: &str,
    trajectory_signature: &str,
) -> (r: Result<Phase18ResonanceField, String>)
    ensures
        match r {
            Ok(f) => {
                &&& operator_signature@.len() > 0
                &&& binding_signature@.len() > 0
                &&& trajectory_signature@.len() > 0
                &&& is_field_of(f, operator_signature@, binding_signature@, trajectory_signature@)
                &&& field_error(f) is None
                &&& 3 <= f.total_weight <= 291
            },
            Err(e) => if operator_signature@.len() == 0 {
                e@ == "phase18_operator_signature_empty"@
            } else if binding_signature@.len() == 0 {
                e@ == "phase18_binding_signature_empty"@
            } else {
                trajectory_signature@.len() == 0 && e@ == "phase18_trajectory_signature_empty"@
            },
        },
{
    if operator_signature.is_empty() {
        return Err(text("phase18_operator_signature_empty"));
    }
    if binding_signature.is_empty() {
        return Err(text("phase18_binding_signature_empty"));
    }
    if trajectory_signature.is_empty() {
        return Err(text("phase18_trajectory_signature_empty"));
    }
    let operator_weight = phase18_weight(operator_signature, "op");
    let binding_weight = phase18_weight(binding_signature, "binding");
    let trajectory_weight = phase18_weight(trajectory_signature, "trajectory");
    let total_weight = operator_weight + binding_weight + trajectory_weight;
    let mut input = text("op=");
    push_str(&mut input, operator_signature);
    push_str(&mut input, "|binding=");
    push_str(&mut input, binding_signature);
    push_str(&mut input, "|trajectory=");
    push_str(&mut input, trajectory_signature);
    push_str(&mut input, "|ow=");
    push_i64(&mut input, operator_weight as i64);
    push_str(&mut input, "|bw=");
    push_i64(&mut input, binding_weight as i64);
    push_str(&mut input, "|tw=");
    push_i64(&mut input, trajectory_weight as i64);
    push_str(&mut input, "|sum=");
    push_i64(&mut input, total_weight as i64);
    let resonance_signature = hash_text(input.as_str());
    proof {
        crate::text::lemma_hash16_len(
            resonance_sig_input(operator_signature@, binding_signature@, trajectory_signature@),
        );
    }
    Ok(
        Phase18ResonanceField {
            operator_signature: text(operator_signature),
            binding_signature: text(binding_signature),
            trajectory_signature: text(trajectory_signature),
            operator_weight,
            binding_weight,
            trajectory_weight,
            total_weight,
            resonance_signature,
            field_well_formed: true,
        },
    )
}

/// Picks the influence operator from the field's total weight (Euclidean remainder by 4).
pub fn phase18_select_influence_operator(field: &Phase18ResonanceField) -> (r: Result<
    Phase18InfluenceOperator,
    String,
>)
    ensures
        match r {
            Ok(op) => field_error(*field) is None && op == select_operator(field.total_weight as int),
            Err(e) => field_error(*field) == Some(e@),
        },
{
    match phase18_validate_resonance_field_invariants(field) {
        Ok(_) => {},
        Err(e) => return Err(e),
    }
    let t = field.total_weight as i64;
    let rem: i64 = if t >= 0 {
        ((t as u64) % 4) as i64
    } else {
        let m = (((-t) as u64) % 4) as i64;
        if m == 0 {
            0
        } else {
            4 - m
        }
    };
    assert(rem == (field.total_weight as int) % 4);
    let op = if rem == 0 {
        Phase18InfluenceOperator::FavorStability
    } else if rem == 1 {
        Phase18InfluenceOperator::FavorEntangling
    } else if rem == 2 {
        Phase18InfluenceOperator::FavorContrast
    } else {
        Phase18InfluenceOperator::DampenConflict
    };
    Ok(op)
}

fn phase18_modulate_binding_kind(
    original: Phase15BindingKind,
    influence_operator: Phase18InfluenceOperator,
    resonance_weight: i32,
) -> (k: Phase15BindingKind)
    ensures
        k == modulate(original, influence_operator, resonance_weight as int),
{
    match influence_operator {
        Phase18InfluenceOperator::FavorStability => {
            let even = if resonance_weight >= 0 {
                resonance_weight % 2 == 0
            } else {
                (-(resonance_weight as i64)) % 2 == 0
            };
            if even {
                Phase15BindingKind::Correlated
            } else {
                original
            }
        },
        Phase18InfluenceOperator::FavorEntangling => Phase15BindingKind::EntanglingOpApplied,
        Phase18InfluenceOperator::FavorContrast => Phase15BindingKind::AntiCorrelated,
        Phase18InfluenceOperator::DampenConflict => {
            if original == Phase15BindingKind::Separable {
                Phase15BindingKind::Correlated
            } else {
                original
            }
        },
    }
}

fn phase18_binding_kind_to_semantic_label(kind: Phase15BindingKind) -> (l: Phase17SemanticLabel)
    ensures
        l == kind_label(kind),
{
    match kind {
        Phase15BindingKind::Correlated => Phase17SemanticLabel::Reinforcement,
        Phase15BindingKind::AntiCorrelated => Phase17SemanticLabel::Contrast,
        Phase15BindingKind::Separable => Phase17SemanticLabel::Conflict,
        Phase15BindingKind::EntanglingOpApplied => Phase17SemanticLabel::EntanglingInfluence,
    }
}

/// Re-infers one thought step under a resonance field and influence operator.
pub fn phase18_infer_step(
    input_step: &Phase16ThoughtStep,
    field: &Phase18ResonanceField,
    influence_operator: Phase18InfluenceOperator,
) -> (r: Result<Phase18InferenceStep, String>)
    requires
        field_error(*field) is None && input_step.step_signature@.len() > 0 ==> i32::MIN
            <= step_weight(*input_step, *field) <= i32::MAX,
    ensures
        match r {
            Ok(s) => field_error(*field) is None && input_step.step_signature@.len() > 0
                && is_inference_step(s, *input_step, *field, influence_operator),
            Err(e) => match field_error(*field) {
                Some(fe) => e@ == fe,
                None => input_step.step_signature@.len() == 0
                    && e@ == "phase18_input_step_signature_empty"@,
            },
        },
{
    match phase18_validate_resonance_field_invariants(field) {
        Ok(_) => {},
        Err(e) => return Err(e),
    }
    if is_blank(&input_step.step_signature) {
        return Err(text("phase18_input_step_signature_empty"));
    }
    let resonance_weight = field.total_weight + (input_step.step_index as i32);
    let output_binding_kind = phase18_modulate_binding_kind(
        input_step.to_binding_kind,
        influence_operator,
        resonance_weight,
    );
    let mut a = text("from=");
    push_str(&mut a, input_step.from_binding_signature.as_str());
    push_str(&mut a, "|op=");
    push_str(&mut a, input_step.op_signature.as_str());
    push_str(&mut a, "|influence=");
    push_str(&mut a, phase18_influence_name(influence_operator));
    push_str(&mut a, "|resonance=");
    push_i64(&mut a, resonance_weight as i64);
    push_str(&mut a, "|old_to=");
    push_str(&mut a, input_step.to_binding_signature.as_str());
    push_str(&mut a, "|res_sig=");
    push_str(&mut a, field.resonance_signature.as_str());
    let output_to_binding_signature = hash_text(a.as_str());
    let mut b = text("idx=");
    push_usize(&mut b, input_step.step_index);
    push_str(&mut b, "|from=");
    push_str(&mut b, input_step.from_binding_signature.as_str());
    push_str(&mut b, "|op=");
    push_str(&mut b, input_step.op_signature.as_str());
    push_str(&mut b, "|to=");
    push_str(&mut b, output_to_binding_signature.as_str());
    push_str(&mut b, "|kind=");
    push_str(&mut b, phase18_kind_name(output_binding_kind));
    let output_step_signature = hash_text(b.as_str());
    let mut c = text("input=");
    push_str(&mut c, input_step.step_signature.as_str());
    push_str(&mut c, "|output=");
    push_str(&mut c, output_step_signature.as_str());
    push_str(&mut c, "|op=");
    push_str(&mut c, phase18_influence_name(influence_operator));
    push_str(&mut c, "|w=");
    push_i64(&mut c, resonance_weight as i64);
    push_str(&mut c, "|res=");
    push_str(&mut c, field.resonance_signature.as_str());
    let inference_step_signature = hash_text(c.as_str());
    let output_step = Phase16ThoughtStep {
        step_index: input_step.step_index,
        from_binding_signature: input_step.from_binding_signature.clone(),
        op_signature: input_step.op_signature.clone(),
        to_binding_signature: output_to_binding_signature,
        to_binding_kind: output_binding_kind,
        step_signature: output_step_signature,
    };
    Ok(
        Phase18InferenceStep {
            step_index: input_step.step_index,
            input_step_signature: input_step.step_signature.clone(),
            influence_operator,
            resonance_weight,
            output_step,
            inference_step_signature,
        },
    )
}

/// The final step signature and label of an inference: those of its last
/// step, or the trajectory's signature and `Alignment` when there is none.
pub open spec fn final_step_sig(steps: Seq<Phase18InferenceStep>, traj_sig: Seq<char>) -> Seq<char> {
    if steps.len() > 0 {
        steps.last().output_step.step_signature@
    } else {
        traj_sig
    }
}

pub open spec fn final_label(steps: Seq<Phase18InferenceStep>) -> Phase17SemanticLabel {
    if steps.len() > 0 {
        kind_label(steps.last().output_step.to_binding_kind)
    } else {
        Phase17SemanticLabel::Alignment
    }
}

/// Re-infers a whole trajectory under a resonance field.
pub fn phase18_infer_trajectory(
    trajectory: &Phase16ThoughtTrajectory,
    field: &Phase18ResonanceField,
) -> (r: Result<Phase18InferenceTrajectory, String>)
    requires
        trajectory_error(*trajectory) is None && field_error(*field) is None ==> weights_fit(
            *trajectory,
            *field,
        ),
    ensures
        match r {
            Ok(t) => {
                &&& trajectory_error(*trajectory) is None
                &&& field_error(*field) is None
                &&& is_inference_of(t, *trajectory, *field)
            },
            Err(e) => match trajectory_error(*trajectory) {
                Some(te) => e@ == te,
                None => field_error(*field) == Some(e@),
            },
        },
{
    match phase16_validate_trajectory_invariants(trajectory) {
        Ok(_) => {},
        Err(e) => return Err(e),
    }
    match phase18_validate_resonance_field_invariants(field) {
        Ok(_) => {},
        Err(e) => return Err(e),
    }
    let influence_operator = match phase18_select_influence_operator(field) {
        Ok(op) => op,
        Err(e) => return Err(e),
    };
    proof {
        crate::cognition::phase16_thought_path_trajectories::lemma_no_bad_step(trajectory.steps@, 0);
    }
    let mut inference_steps: Vec<Phase18InferenceStep> = Vec::new();
    let mut i: usize = 0;
    while i < trajectory.steps.len()
        invariant
            i <= trajectory.steps@.len(),
            field_error(*field) is None,
            trajectory_error(*trajectory) is None,
            weights_fit(*trajectory, *field),
            influence_operator == select_operator(field.total_weight as int),
            inference_steps@.len() == i,
            forall|k: int|
                0 <= k < i ==> is_inference_step(
                    #[trigger] inference_steps@[k],
                    trajectory.steps@[k],
                    *field,
                    influence_operator,
                ),
            forall|k: int|
                0 <= k < trajectory.steps@.len() ==> (#[trigger] trajectory.steps@[k]).step_signature@.len()
                    > 0,
        decreases trajectory.steps@.len() - i,
    {
        assert(i32::MIN <= step_weight(trajectory.steps@[i as int], *field) <= i32::MAX);
        let inferred = match phase18_infer_step(&trajectory.steps[i], field, influence_operator) {
            Ok(s) => s,
            Err(e) => {
                assert(false);
                return Err(e);
            },
        };
        inference_steps.push(inferred);
        i = i + 1;
    }
    let n = inference_steps.len();
    let final_step_signature = if n > 0 {
        inference_steps[n - 1].output_step.step_signature.clone()
    } else {
        trajectory.trajectory_signature.clone()
    };
    let final_semantic_label = if n > 0 {
        phase18_binding_kind_to_semantic_label(inference_steps[n - 1].output_step.to_binding_kind)
    } else {
        Phase17SemanticLabel::Alignment
    };
    let mut sigs: Vec<String> = Vec::new();
    let mut k: usize = 0;
    while k < n
        invariant
            n == inference_steps@.len(),
            k <= n,
            sigs@.len() == k,
            forall|m: int|
                0 <= m < k ==> #[trigger] sigs@[m]@ == inference_steps@[m].inference_step_signature@,
        decreases n - k,
    {
        sigs.push(inference_steps[k].inference_step_signature.clone());
        k = k + 1;
    }
    assert(views(sigs@) =~= inference_sigs(inference_steps@));
    let joined = join_strings(&sigs, "|");
    let mut a = text("initial=");
    push_str(&mut a, trajectory.trajectory_signature.as_str());
    push_str(&mut a, "|resonance=");
    push_str(&mut a, field.resonance_signature.as_str());
    push_str(&mut a, "|operator=");
    push_str(&mut a, phase18_influence_name(influence_operator));
    push_str(&mut a, "|steps=[");
    push_str(&mut a, joined.as_str());
    push_str(&mut a, "]|final_step=");
    push_str(&mut a, final_step_signature.as_str());
    push_str(&mut a, "|label=");
    push_str(&mut a, phase18_label_name(final_semantic_label));
    let inference_signature = hash_text(a.as_str());
    let mut b = text("resonance=");
    push_str(&mut b, field.resonance_signature.as_str());
    push_str(&mut b, "|inference=");
    push_str(&mut b, inference_signature.as_str());
    push_str(&mut b, "|label=");
    push_str(&mut b, phase18_label_name(final_semantic_label));
    push_str(&mut b, "|count=");
    push_usize(&mut b, n);
    let telemetry_digest = hash_text(b.as_str());
    Ok(
        Phase18InferenceTrajectory {
            initial_trajectory_signature: trajectory.trajectory_signature.clone(),
            resonance_signature: field.resonance_signature.clone(),
            influence_operator,
            inference_steps,
            final_step_signature,
            final_semantic_label,
            inference_signature,
            telemetry_digest,
            trajectory_well_formed: true,
        },
    )
}

/// Checks the resonance field governance invariants.
pub fn phase18_validate_resonance_field_invariants(field: &Phase18ResonanceField) -> (r: Result<
    (),
    String,
>)
    ensures
        match r {
            Ok(_) => field_error(*field) is None,
            Err(e) => field_error(*field) == Some(e@),
        },
{
    if !field.field_well_formed {
        return Err(text("phase18_resonance_field_marked_malformed"));
    }
    if is_blank(&field.operator_signature) {
        return Err(text("phase18_operator_signature_empty"));
    }
    if is_blank(&field.binding_signature) {
        return Err(text("phase18_binding_signature_empty"));
    }
    if is_blank(&field.trajectory_signature) {
        return Err(text("phase18_trajectory_signature_empty"));
    }
    if is_blank(&field.resonance_signature) {
        return Err(text("phase18_resonance_signature_empty"));
    }
    let sum = field.operator_weight as i64 + field.binding_weight as i64 + field.trajectory_weight as i64;
    if field.total_weight as i64 != sum {
        return Err(text("phase18_total_weight_mismatch"));
    }
    Ok(())
}

/// Checks the inference trajectory governance invariants.
pub fn phase18_validate_inference_trajectory_invariants(trajectory: &Phase18InferenceTrajectory) -> (r:
    Result<(), String>)
    ensures
        match r {
            Ok(_) => inference_error(*trajectory) is None,
            Err(e) => inference_error(*trajectory) == Some(e@),
        },
{
    if !trajectory.trajectory_well_formed {
        return Err(text("phase18_inference_trajectory_marked_malformed"));
    }
    if is_blank(&trajectory.initial_trajectory_signature) {
        return Err(text("phase18_initial_trajectory_signature_empty"));
    }
    if is_blank(&trajectory.resonance_signature) {
        return Err(text("phase18_resonance_signature_empty"));
    }
    if is_blank(&trajectory.final_step_signature) {
        return Err(text("phase18_final_step_signature_empty"));
    }
    if is_blank(&trajectory.inference_signature) {
        return Err(text("phase18_inference_signature_empty"));
    }
    if is_blank(&trajectory.telemetry_digest) {
        return Err(text("phase18_telemetry_digest_empty"));
    }
    let mut i: usize = 0;
    while i < trajectory.inference_steps.len()
        invariant
            i <= trajectory.inference_steps@.len(),
            inference_error(*trajectory) == first_bad_inference_step(
                trajectory.inference_steps@,
                i as int,
            ),
        decreases trajectory.inference_steps@.len() - i,
    {
        let step = &trajectory.inference_steps[i];
        if step.step_index != i {
            let mut e = text("phase18_step_index_mismatch: expected ");
            push_usize(&mut e, i);
            push_str(&mut e, " got ");
            push_usize(&mut e, step.step_index);
            return Err(e);
        }
        if is_blank(&step.inference_step_signature) {
            let mut e = text("phase18_inference_step_signature_empty at step ");
            push_usize(&mut e, i);
            return Err(e);
        }
        i = i + 1;
    }
    Ok(())
}

/// The telemetry line published for a resonance field.
pub open spec fn resonance_line(f: Phase18ResonanceField) -> Seq<char> {
    "op_sig="@ + f.operator_signature@ + ":binding_sig="@ + f.binding_signature@
        + ":trajectory_sig="@ + f.trajectory_signature@ + ":ow="@ + dec_int(f.operator_weight as int)
        + ":bw="@ + dec_int(f.binding_weight as int) + ":tw="@ + dec_int(f.trajectory_weight as int)
        + ":sum="@ + dec_int(f.total_weight as int) + ":res_sig="@ + f.resonance_signature@
        + ":well_formed="@ + bool_text(f.field_well_formed)
}

/// The telemetry line published for an inference trajectory.
pub open spec fn inference_line(t: Phase18InferenceTrajectory) -> Seq<char> {
    "initial="@ + t.initial_trajectory_signature@ + ":res="@ + t.resonance_signature@ + ":op="@
        + influence_name(t.influence_operator) + ":steps="@ + dec_nat(t.inference_steps@.len())
        + ":final_step="@ + t.final_step_signature@ + ":label="@ + label_name(t.final_semantic_label)
        + ":inference_sig="@ + t.inference_signature@ + ":telemetry_digest="@ + t.telemetry_digest@
        + ":well_formed="@ + bool_text(t.trajectory_well_formed)
}


/// The telemetry line for a resonance field.
pub fn phase18_resonance_telemetry_line(field: &Phase18ResonanceField) -> (line: String)
    ensures
        line@ == resonance_line(*field),
{
    let mut line = text("op_sig=");
    push_str(&mut line, field.operator_signature.as_str());
    push_str(&mut line, ":binding_sig=");
    push_str(&mut line, field.binding_signature.as_str());
    push_str(&mut line, ":trajectory_sig=");
    push_str(&mut line, field.trajectory_signature.as_str());
    push_str(&mut line, ":ow=");
    push_i64(&mut line, field.operator_weight as i64);
    push_str(&mut line, ":bw=");
    push_i64(&mut line, field.binding_weight as i64);
    push_str(&mut line, ":tw=");
    push_i64(&mut line, field.trajectory_weight as i64);
    push_str(&mut line, ":sum=");
    push_i64(&mut line, field.total_weight as i64);
    push_str(&mut line, ":res_sig=");
    push_str(&mut line, field.resonance_signature.as_str());
    push_str(&mut line, ":well_formed=");
    push_bool(&mut line, field.field_well_formed);
    line
}

/// The telemetry line for an inference trajectory.
pub fn phase18_inference_telemetry_line(trajectory: &Phase18InferenceTrajectory) -> (line: String)
    ensures
        line@ == inference_line(*trajectory),
{
    let mut line = text("initial=");
    push_str(&mut line, trajectory.initial_trajectory_signature.as_str());
    push_str(&mut line, ":res=");
    push_str(&mut line, trajectory.resonance_signature.as_str());
    push_str(&mut line, ":op=");
    push_str(&mut line, phase18_influence_name(trajectory.influence_operator));
    push_str(&mut line, ":steps=");
    push_usize(&mut line, trajectory.inference_steps.len());
    push_str(&mut line, ":final_step=");
    push_str(&mut line, trajectory.final_step_signature.as_str());
    push_str(&mut line, ":label=");
    push_str(&mut line, phase18_label_name(trajectory.final_semantic_label));
    push_str(&mut line, ":inference_sig=");
    push_str(&mut line, trajectory.inference_signature.as_str());
    push_str(&mut line, ":telemetry_digest=");
    push_str(&mut line, trajectory.telemetry_digest.as_str());
    push_str(&mut line, ":well_formed=");
    push_bool(&mut line, trajectory.trajectory_well_formed);
    line
}

} // verus!
