//! Emergent cognitive programs: an adjustment plan over a cognitive manifold
//! turned into an ordered program of steps with signatures.
use vstd::prelude::*;
use crate::cognition::phase90_cognitive_manifolds::Phase90CognitiveManifold;
use crate::cognition::phase90_geometry_driven_adjustment_operators::{
    Phase90GeometryDrivenAdjustmentOperator, Phase90GeometryDrivenAdjustmentPlan,
};
use crate::text::{bool_text, dec_nat, default_hash_str_u8_usize, hex_nat, hex_text, join,
    join_strings, push_bool, push_str, push_u64, push_u64_pad2, push_usize, same_text,
    std_hash_of_str_u8_usize, text, views, zero_pad};

verus! {

/// One step of a program, derived from one adjustment operator.
#[derive(Debug, Clone, PartialEq, Eq)]
pub struct Phase12EmergentCognitiveProgramStep {
    pub step_index: usize,
    pub source_operator_id: String,
    pub source_shape_index: usize,
    pub target_shape_index: usize,
    pub operator_kind: String,
    pub step_kind: String,
    pub operator_pressure_percent: u8,
    pub continuity_guard_percent: u8,
    pub manifold_alignment_percent: u8,
    pub step_signature: String,
    pub step_well_formed: bool,
}

/// A program synthesized from a manifold and its adjustment plan.
#[derive(Debug, Clone, PartialEq, Eq)]
pub struct Phase12EmergentCognitiveProgram {
    pub manifold_signature: String,
    pub operator_plan_hash: String,
    pub program_kind: String,
    pub step_count: usize,
    pub resonance_gate_percent: u8,
    pub program_steps: Vec<Phase12EmergentCognitiveProgramStep>,
    pub program_signature: String,
    pub program_profile_hash: String,
    pub program_well_formed: bool,
}

// ── model ────────────────────────────────────────────────────────────────────

/// Why no program can be synthesized, checked in this order.
pub open spec fn program_input_error(m: Phase90CognitiveManifold, p: Phase90GeometryDrivenAdjustmentPlan) -> Option<
    Seq<char>,
> {
    if !m.manifold_well_formed {
        Some("cannot synthesize program from malformed manifold"@)
    } else if !p.operator_plan_well_formed {
        Some("cannot synthesize program from malformed adjustment plan"@)
    } else if m.manifold_signature@ != p.manifold_signature@ {
        Some("manifold/plan signature mismatch"@)
    } else if p.operators@.len() == 0 {
        Some("cannot synthesize program without adjustment operators"@)
    } else {
        None
    }
}

/// The program kind: local patches first, then by dominant operator kind.
pub open spec fn program_kind(archetype: Seq<char>, dominant: Seq<char>) -> Seq<char> {
    if archetype == "local_patch"@ {
        "local_patch_program"@
    } else if dominant == "resonance_reweight"@ {
        "resonant_program"@
    } else if dominant == "gradient_smooth"@ {
        "gradient_program"@
    } else if dominant == "continuity_lift"@ {
        "continuity_program"@
    } else if dominant == "boundary_probe"@ {
        "exploratory_program"@
    } else {
        archetype + "::"@ + dominant
    }
}

/// The kind of the step at `index` (numbered from one in the name).
pub open spec fn step_kind(kind: Seq<char>, index: int) -> Seq<char> {
    let n = dec_nat((index + 1) as nat);
    if kind == "resonance_reweight"@ {
        "stabilize_resonance_"@ + n
    } else if kind == "gradient_smooth"@ {
        "smooth_gradient_"@ + n
    } else if kind == "continuity_lift"@ {
        "lift_continuity_"@ + n
    } else if kind == "boundary_probe"@ {
        "probe_boundary_"@ + n
    } else {
        kind + "_"@ + zero_pad(n, 2)
    }
}

pub open spec fn cap100(v: int) -> int {
    if v > 100 {
        100
    } else {
        v
    }
}

/// The resonance gate: the mean of embedding weight and aggregate pressure,
/// kept within 1..=100.
pub open spec fn gate_of(m: Phase90CognitiveManifold, p: Phase90GeometryDrivenAdjustmentPlan) -> int {
    let g = (m.manifold_embedding_weight_percent + p.aggregate_adjustment_pressure_percent) / 2;
    if g < 1 {
        1
    } else {
        cap100(g)
    }
}

pub open spec fn guard_of(op: Phase90GeometryDrivenAdjustmentOperator, m: Phase90CognitiveManifold) -> int {
    cap100((op.continuity_bias_percent + m.manifold_embedding_weight_percent) / 2)
}

pub open spec fn alignment_of(
    op: Phase90GeometryDrivenAdjustmentOperator,
    m: Phase90CognitiveManifold,
    p: Phase90GeometryDrivenAdjustmentPlan,
) -> int {
    cap100(
        (op.manifold_alignment_percent + m.manifold_embedding_weight_percent
            + p.aggregate_adjustment_pressure_percent) / 3,
    )
}

pub open spec fn step_signature(
    index: int,
    op: Phase90GeometryDrivenAdjustmentOperator,
    kind: Seq<char>,
    guard: int,
    alignment: int,
) -> Seq<char> {
    "step="@ + dec_nat(index as nat) + "|operator_id="@ + op.operator_id@ + "|source_shape="@ + dec_nat(
        op.source_shape_index as nat,
    ) + "|target_shape="@ + dec_nat(op.target_shape_index as nat) + "|kind="@ + kind + "|pressure="@
        + dec_nat(op.adjustment_pressure_percent as nat) + "|guard="@ + dec_nat(guard as nat)
        + "|alignment="@ + dec_nat(alignment as nat)
}

/// `s` is the step at `index` for operator `op` of plan `p` over manifold `m`.
pub open spec fn is_step_of(
    s: Phase12EmergentCognitiveProgramStep,
    index: int,
    op: Phase90GeometryDrivenAdjustmentOperator,
    m: Phase90CognitiveManifold,
    p: Phase90GeometryDrivenAdjustmentPlan,
) -> bool {
    let kind = step_kind(op.operator_kind@, index);
    let guard = guard_of(op, m);
    let alignment = alignment_of(op, m, p);
    &&& s.step_index == index
    &&& s.source_operator_id@ == op.operator_id@
    &&& s.source_shape_index == op.source_shape_index
    &&& s.target_shape_index == op.target_shape_index
    &&& s.operator_kind@ == op.operator_kind@
    &&& s.step_kind@ == kind
    &&& s.operator_pressure_percent == op.adjustment_pressure_percent
    &&& s.continuity_guard_percent == guard
    &&& s.manifold_alignment_percent == alignment
    &&& s.step_signature@ == step_signature(index, op, kind, guard, alignment)
    &&& s.step_well_formed == (kind.len() > 0 && guard > 0 && alignment > 0)
}

pub open spec fn step_signatures(steps: Seq<Phase12EmergentCognitiveProgramStep>) -> Seq<Seq<char>> {
    steps.map_values(|s: Phase12EmergentCognitiveProgramStep| s.step_signature@)
}

/// The program signature: manifold, plan hash, kind, gate and the step
/// signatures joined by `||`.
pub open spec fn program_signature(
    m: Phase90CognitiveManifold,
    p: Phase90GeometryDrivenAdjustmentPlan,
    kind: Seq<char>,
    gate: int,
    steps: Seq<Phase12EmergentCognitiveProgramStep>,
) -> Seq<char> {
    "manifold="@ + m.manifold_signature@ + "|plan="@ + p.operator_plan_hash@ + "|kind="@ + kind + "|gate="@
        + dec_nat(gate as nat) + "|steps="@ + join(step_signatures(steps), "||"@)
}

/// `g` is the program synthesized from manifold `m` and plan `p`.
pub open spec fn is_program_of(g: Phase12EmergentCognitiveProgram, m: Phase90CognitiveManifold, p: Phase90GeometryDrivenAdjustmentPlan) -> bool {
    let steps = g.program_steps@;
    let kind = program_kind(m.manifold_archetype@, p.dominant_operator_kind@);
    let gate = gate_of(m, p);
    &&& g.manifold_signature@ == m.manifold_signature@
    &&& g.operator_plan_hash@ == p.operator_plan_hash@
    &&& g.program_kind@ == kind
    &&& g.step_count == steps.len()
    &&& steps.len() == p.operators@.len()
    &&& g.resonance_gate_percent == gate
    &&& forall|k: int| 0 <= k < steps.len() ==> is_step_of(#[trigger] steps[k], k, p.operators@[k], m, p)
    &&& g.program_signature@ == program_signature(m, p, kind, gate, steps)
    &&& g.program_profile_hash@ == hex_nat(
        std_hash_of_str_u8_usize(g.program_signature@, g.resonance_gate_percent, g.step_count) as nat,
    )
    &&& g.program_well_formed == (steps.len() > 0 && gate > 0 && kind.len() > 0 && forall|k: int|
        0 <= k < steps.len() ==> (#[trigger] steps[k]).step_well_formed)
}

/// The telemetry line published for a program.
pub open spec fn program_line(g: Phase12EmergentCognitiveProgram) -> Seq<char> {
    "manifold_signature="@ + g.manifold_signature@ + ":operator_plan_hash="@ + g.operator_plan_hash@
        + ":program_kind="@ + g.program_kind@ + ":step_count="@ + dec_nat(g.step_count as nat)
        + ":resonance_gate="@ + dec_nat(g.resonance_gate_percent as nat) + ":program_signature="@
        + g.program_signature@ + ":profile_hash="@ + g.program_profile_hash@ + ":well_formed="@
        + bool_text(g.program_well_formed)
}

/// What a synthesized program is made of: one step per plan operator, in
/// operator order and carrying that operator's id, kind, shapes and
/// pressure; the resonance gate lies in 1..=100 and is the mean of the
/// manifold's embedding weight and the plan's pressure where that mean does;
/// every step's continuity guard and manifold alignment are at most 100; a
/// local-patch manifold always yields a local-patch program, and otherwise a
/// plan dominated by resonance reweighting yields a resonant program.
pub proof fn lemma_program_shape(g: Phase12EmergentCognitiveProgram, m: Phase90CognitiveManifold, p: Phase90GeometryDrivenAdjustmentPlan)
    requires
        is_program_of(g, m, p),
    ensures
        g.step_count == p.operators@.len(),
        g.program_steps@.len() == p.operators@.len(),
        forall|k: int|
            0 <= k < g.program_steps@.len() ==> {
                &&& (#[trigger] g.program_steps@[k]).step_index == k
                &&& g.program_steps@[k].source_operator_id@ == p.operators@[k].operator_id@
                &&& g.program_steps@[k].operator_kind@ == p.operators@[k].operator_kind@
                &&& g.program_steps@[k].source_shape_index == p.operators@[k].source_shape_index
                &&& g.program_steps@[k].target_shape_index == p.operators@[k].target_shape_index
                &&& g.program_steps@[k].operator_pressure_percent == p.operators@[k].adjustment_pressure_percent
                &&& g.program_steps@[k].continuity_guard_percent <= 100
                &&& g.program_steps@[k].manifold_alignment_percent <= 100
            },
        1 <= g.resonance_gate_percent <= 100,
        ({
            let mean = (m.manifold_embedding_weight_percent + p.aggregate_adjustment_pressure_percent) / 2;
            1 <= mean <= 100 ==> g.resonance_gate_percent == mean
        }),
        m.manifold_archetype@ == "local_patch"@ ==> g.program_kind@ == "local_patch_program"@,
        m.manifold_archetype@ != "local_patch"@ && p.dominant_operator_kind@ == "resonance_reweight"@
            ==> g.program_kind@ == "resonant_program"@,
{
    assert forall|k: int| 0 <= k < g.program_steps@.len() implies {
        &&& (#[trigger] g.program_steps@[k]).step_index == k
        &&& g.program_steps@[k].source_operator_id@ == p.operators@[k].operator_id@
        &&& g.program_steps@[k].operator_kind@ == p.operators@[k].operator_kind@
        &&& g.program_steps@[k].source_shape_index == p.operators@[k].source_shape_index
        &&& g.program_steps@[k].target_shape_index == p.operators@[k].target_shape_index
        &&& g.program_steps@[k].operator_pressure_percent == p.operators@[k].adjustment_pressure_percent
        &&& g.program_steps@[k].continuity_guard_percent <= 100
        &&& g.program_steps@[k].manifold_alignment_percent <= 100
    } by {
        assert(is_step_of(g.program_steps@[k], k, p.operators@[k], m, p));
    }
}

// ── kernel ───────────────────────────────────────────────────────────────────

fn program_kind_text(archetype: &String, dominant: &String) -> (s: String)
    ensures
        s@ == program_kind(archetype@, dominant@),
{
    if same_text(archetype, &text("local_patch")) {
        text("local_patch_program")
    } else if same_text(dominant, &text("resonance_reweight")) {
        text("resonant_program")
    } else if same_text(dominant, &text("gradient_smooth")) {
        text("gradient_program")
    } else if same_text(dominant, &text("continuity_lift")) {
        text("continuity_program")
    } else if same_text(dominant, &text("boundary_probe")) {
        text("exploratory_program")
    } else {
        let mut s = archetype.clone();
        push_str(&mut s, "::");
        push_str(&mut s, dominant.as_str());
        s
    }
}

fn step_kind_text(kind: &String, index: usize) -> (s: String)
    requires
        index < usize::MAX,
    ensures
        s@ == step_kind(kind@, index as int),
{
    let n = index + 1;
    let mut s = if same_text(kind, &text("resonance_reweight")) {
        text("stabilize_resonance_")
    } else if same_text(kind, &text("gradient_smooth")) {
        text("smooth_gradient_")
    } else if same_text(kind, &text("continuity_lift")) {
        text("lift_continuity_")
    } else if same_text(kind, &text("boundary_probe")) {
        text("probe_boundary_")
    } else {
        let mut t = kind.clone();
        push_str(&mut t, "_");
        push_u64_pad2(&mut t, n as u64);
        return t;
    };
    push_usize(&mut s, n);
    s
}

fn synthesize_step(
    index: usize,
    op: &Phase90GeometryDrivenAdjustmentOperator,
    manifold: &Phase90CognitiveManifold,
    plan: &Phase90GeometryDrivenAdjustmentPlan,
) -> (s: Phase12EmergentCognitiveProgramStep)
    requires
        index < usize::MAX,
    ensures
        is_step_of(s, index as int, *op, *manifold, *plan),
{
    let kind = step_kind_text(&op.operator_kind, index);
    let embedding = manifold.manifold_embedding_weight_percent as u16;
    let aggregate = plan.aggregate_adjustment_pressure_percent as u16;
    let g = (op.continuity_bias_percent as u16 + embedding) / 2;
    let guard: u8 = if g > 100 {
        100
    } else {
        g as u8
    };
    let a = (op.manifold_alignment_percent as u16 + embedding + aggregate) / 3;
    let alignment: u8 = if a > 100 {
        100
    } else {
        a as u8
    };
    let mut sig = text("step=");
    push_usize(&mut sig, index);
    push_str(&mut sig, "|operator_id=");
    push_str(&mut sig, op.operator_id.as_str());
    push_str(&mut sig, "|source_shape=");
    push_usize(&mut sig, op.source_shape_index);
    push_str(&mut sig, "|target_shape=");
    push_usize(&mut sig, op.target_shape_index);
    push_str(&mut sig, "|kind=");
    push_str(&mut sig, kind.as_str());
    push_str(&mut sig, "|pressure=");
    push_u64(&mut sig, op.adjustment_pressure_percent as u64);
    push_str(&mut sig, "|guard=");
    push_u64(&mut sig, guard as u64);
    push_str(&mut sig, "|alignment=");
    push_u64(&mut sig, alignment as u64);
    let well_formed = kind.as_str().unicode_len() > 0 && guard > 0 && alignment > 0;
    Phase12EmergentCognitiveProgramStep {
        step_index: index,
        source_operator_id: op.operator_id.clone(),
        source_shape_index: op.source_shape_index,
        target_shape_index: op.target_shape_index,
        operator_kind: op.operator_kind.clone(),
        step_kind: kind,
        operator_pressure_percent: op.adjustment_pressure_percent,
        continuity_guard_percent: guard,
        manifold_alignment_percent: alignment,
        step_signature: sig,
        step_well_formed: well_formed,
    }
}

/// Synthesizes the program for a governed manifold and an adjustment plan
/// over it: one step per operator, in plan order.
pub fn phase12_synthesize_emergent_cognitive_program(
    manifold: &Phase90CognitiveManifold,
    plan: &Phase90GeometryDrivenAdjustmentPlan,
) -> (r: Result<Phase12EmergentCognitiveProgram, String>)
    ensures
        match program_input_error(*manifold, *plan) {
            Some(e) => r is Err && r->Err_0@ == e,
            None => r is Ok && is_program_of(r->Ok_0, *manifold, *plan),
        },
{
    if !manifold.manifold_well_formed {
        return Err(text("cannot synthesize program from malformed manifold"));
    }
    if !plan.operator_plan_well_formed {
        return Err(text("cannot synthesize program from malformed adjustment plan"));
    }
    if !same_text(&manifold.manifold_signature, &plan.manifold_signature) {
        return Err(text("manifold/plan signature mismatch"));
    }
    if plan.operators.len() == 0 {
        return Err(text("cannot synthesize program without adjustment operators"));
    }
    let kind = program_kind_text(&manifold.manifold_archetype, &plan.dominant_operator_kind);
    let g = (manifold.manifold_embedding_weight_percent as u16 + plan.aggregate_adjustment_pressure_percent as u16)
        / 2;
    let gate: u8 = if g < 1 {
        1
    } else if g > 100 {
        100
    } else {
        g as u8
    };
    let mut steps: Vec<Phase12EmergentCognitiveProgramStep> = Vec::new();
    let mut signatures: Vec<String> = Vec::new();
    let mut all_well_formed = true;
    let mut k: usize = 0;
    while k < plan.operators.len()
        invariant
            k <= plan.operators@.len(),
            steps@.len() == k,
            forall|q: int| 0 <= q < k ==> is_step_of(#[trigger] steps@[q], q, plan.operators@[q], *manifold, *plan),
            views(signatures@) == step_signatures(steps@),
            all_well_formed == forall|q: int| 0 <= q < k ==> (#[trigger] steps@[q]).step_well_formed,
        decreases plan.operators@.len() - k,
    {
        let step = synthesize_step(k, &plan.operators[k], manifold, plan);
        let ghost before = steps@;
        let ghost before_sigs = views(signatures@);
        let ghost sv = step;
        let sig = step.step_signature.clone();
        signatures.push(sig);
        assert(views(signatures@) =~= before_sigs.push(sv.step_signature@));
        let ghost old_all = all_well_formed;
        all_well_formed = all_well_formed && step.step_well_formed;
        steps.push(step);
        assert(steps@ =~= before.push(sv));
        assert(step_signatures(steps@) =~= step_signatures(before).push(sv.step_signature@));
        assert forall|q: int| 0 <= q < k + 1 implies (#[trigger] steps@[q]).step_well_formed == if q < k {
            before[q].step_well_formed
        } else {
            sv.step_well_formed
        } by {
        }
        proof {
            if !old_all {
                let q = choose|q: int| 0 <= q < k && !(#[trigger] before[q]).step_well_formed;
                assert(!steps@[q].step_well_formed);
            }
            if !sv.step_well_formed {
                assert(!steps@[k as int].step_well_formed);
            }
        }
        k = k + 1;
    }
    let step_count = steps.len();
    let mut signature = text("manifold=");
    push_str(&mut signature, manifold.manifold_signature.as_str());
    push_str(&mut signature, "|plan=");
    push_str(&mut signature, plan.operator_plan_hash.as_str());
    push_str(&mut signature, "|kind=");
    push_str(&mut signature, kind.as_str());
    push_str(&mut signature, "|gate=");
    push_u64(&mut signature, gate as u64);
    push_str(&mut signature, "|steps=");
    let joined = join_strings(&signatures, "||");
    push_str(&mut signature, joined.as_str());
    let profile_hash = hex_text(default_hash_str_u8_usize(signature.as_str(), gate, step_count));
    let well_formed = step_count > 0 && gate > 0 && kind.as_str().unicode_len() > 0 && all_well_formed;
    Ok(
        Phase12EmergentCognitiveProgram {
            manifold_signature: manifold.manifold_signature.clone(),
            operator_plan_hash: plan.operator_plan_hash.clone(),
            program_kind: kind,
            step_count,
            resonance_gate_percent: gate,
            program_steps: steps,
            program_signature: signature,
            program_profile_hash: profile_hash,
            program_well_formed: well_formed,
        },
    )
}

/// The telemetry line for a program.
pub fn phase12_program_telemetry_line(g: &Phase12EmergentCognitiveProgram) -> (line: String)
    ensures
        line@ == program_line(*g),
{
    let mut line = text("manifold_signature=");
    push_str(&mut line, g.manifold_signature.as_str());
    push_str(&mut line, ":operator_plan_hash=");
    push_str(&mut line, g.operator_plan_hash.as_str());
    push_str(&mut line, ":program_kind=");
    push_str(&mut line, g.program_kind.as_str());
    push_str(&mut line, ":step_count=");
    push_usize(&mut line, g.step_count);
    push_str(&mut line, ":resonance_gate=");
    push_u64(&mut line, g.resonance_gate_percent as u64);
    push_str(&mut line, ":program_signature=");
    push_str(&mut line, g.program_signature.as_str());
    push_str(&mut line, ":profile_hash=");
    push_str(&mut line, g.program_profile_hash.as_str());
    push_str(&mut line, ":well_formed=");
    push_bool(&mut line, g.program_well_formed);
    line
}

} // verus!
