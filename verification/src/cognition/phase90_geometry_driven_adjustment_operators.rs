//! Geometry-driven adjustment operators: one operator per interaction of a
//! manifold's dynamics, with pressures and biases drawn from both.
use vstd::prelude::*;
use crate::cognition::phase90_cognitive_manifolds::Phase90CognitiveManifold;
use crate::cognition::phase90_multishape_interaction_dynamics::{
    Phase90MultiShapeInteractionDynamics, Phase90ShapeInteractionEvent,
};
use crate::text::{bool_text, dec_nat, default_hash_str_u8_str, hex_nat, hex_text, join,
    join_strings, less_than, lemma_text_lt_total, lemma_text_lt_transitive, push_bool, push_str,
    push_u64, push_usize, same_text, std_hash_of_str_u8_str, text, text_lt, views};

verus! {

#[derive(Debug, Clone, PartialEq, Eq)]
pub struct Phase90GeometryDrivenAdjustmentOperator {
    pub operator_id: String,
    pub target_shape_index: usize,
    pub source_shape_index: usize,
    pub operator_kind: String,
    pub adjustment_pressure_percent: u8,
    pub continuity_bias_percent: u8,
    pub manifold_alignment_percent: u8,
}

#[derive(Debug, Clone, PartialEq, Eq)]
pub struct Phase90GeometryDrivenAdjustmentPlan {
    pub manifold_signature: String,
    pub operator_count: usize,
    pub dominant_operator_kind: String,
    pub aggregate_adjustment_pressure_percent: u8,
    pub operators: Vec<Phase90GeometryDrivenAdjustmentOperator>,
    pub operator_plan_signature: String,
    pub operator_plan_hash: String,
    pub operator_plan_well_formed: bool,
}

// ── model ────────────────────────────────────────────────────────────────────

pub open spec fn operator_kind(mode: Seq<char>) -> Seq<char> {
    if mode == "resonant_exchange"@ {
        "resonance_reweight"@
    } else if mode == "gradient_blend"@ {
        "gradient_smooth"@
    } else if mode == "continuity_transfer"@ {
        "continuity_lift"@
    } else {
        "boundary_probe"@
    }
}

pub open spec fn min100(v: int) -> int {
    if v > 100 {
        100
    } else {
        v
    }
}

/// `op` is the operator for event `index` of dynamics `d` over manifold `m`.
pub open spec fn is_operator_of(
    op: Phase90GeometryDrivenAdjustmentOperator,
    index: int,
    ev: Phase90ShapeInteractionEvent,
    m: Phase90CognitiveManifold,
    d: Phase90MultiShapeInteractionDynamics,
) -> bool {
    let embedding = m.manifold_embedding_weight_percent as int;
    let shapes = if m.shape_count < 100 {
        m.shape_count as int
    } else {
        100int
    };
    &&& op.operator_id@ == m.manifold_profile_hash@ + ":"@ + dec_nat(index as nat) + ":"@ + dec_nat(
        ev.from_shape_index as nat,
    ) + ":"@ + dec_nat(ev.to_shape_index as nat)
    &&& op.target_shape_index == ev.to_shape_index
    &&& op.source_shape_index == ev.from_shape_index
    &&& op.operator_kind@ == operator_kind(ev.interaction_mode@)
    &&& op.adjustment_pressure_percent == min100(
        (ev.operator_pressure_percent + d.aggregate_operator_pressure_percent) / 2,
    )
    &&& op.continuity_bias_percent == min100((ev.continuity_flow_percent + embedding) / 2)
    &&& op.manifold_alignment_percent == min100((ev.resonance_score_percent + embedding + shapes) / 3)
}

pub open spec fn kinds(ops: Seq<Phase90GeometryDrivenAdjustmentOperator>) -> Seq<Seq<char>> {
    ops.map_values(|op: Phase90GeometryDrivenAdjustmentOperator| op.operator_kind@)
}

/// How many of `ks` equal `k`.
pub open spec fn count_of(ks: Seq<Seq<char>>, k: Seq<char>) -> nat
    decreases ks.len(),
{
    if ks.len() == 0 {
        0
    } else {
        count_of(ks.drop_last(), k) + if ks.last() == k {
            1nat
        } else {
            0nat
        }
    }
}

/// `d` is the most frequent kind, the smallest among equally frequent ones.
pub open spec fn is_dominant_kind(ks: Seq<Seq<char>>, d: Seq<char>) -> bool {
    &&& exists|k: int| 0 <= k < ks.len() && ks[k] == d
    &&& forall|j: int|
        0 <= j < ks.len() ==> count_of(ks, #[trigger] ks[j]) < count_of(ks, d) || (count_of(ks, ks[j])
            == count_of(ks, d) && !text_lt(ks[j], d))
}

pub open spec fn sum_pressure(ops: Seq<Phase90GeometryDrivenAdjustmentOperator>, n: int) -> int
    decreases n,
{
    if n <= 0 {
        0
    } else {
        sum_pressure(ops, n - 1) + ops[n - 1].adjustment_pressure_percent
    }
}

pub open spec fn operator_line(op: Phase90GeometryDrivenAdjustmentOperator) -> Seq<char> {
    dec_nat(op.source_shape_index as nat) + ":"@ + dec_nat(op.target_shape_index as nat) + ":"@
        + op.operator_kind@ + ":"@ + dec_nat(op.adjustment_pressure_percent as nat) + ":"@
        + dec_nat(op.continuity_bias_percent as nat)
}

pub open spec fn operator_lines(ops: Seq<Phase90GeometryDrivenAdjustmentOperator>) -> Seq<Seq<char>> {
    ops.map_values(|op: Phase90GeometryDrivenAdjustmentOperator| operator_line(op))
}

/// `p` is the adjustment plan for manifold `m` under dynamics `d`.
pub open spec fn is_plan_of(
    p: Phase90GeometryDrivenAdjustmentPlan,
    m: Phase90CognitiveManifold,
    d: Phase90MultiShapeInteractionDynamics,
) -> bool {
    let ops = p.operators@;
    let n = ops.len() as int;
    let agg = sum_pressure(ops, n) / n;
    let sig = "manifold="@ + m.manifold_signature@ + "|count="@ + dec_nat(n as nat) + "|dominant="@
        + p.dominant_operator_kind@ + "|aggregate_pressure="@ + dec_nat(agg as nat) + "|operators="@
        + join(operator_lines(ops), "|"@);
    &&& n == d.interaction_events@.len()
    &&& forall|k: int|
        0 <= k < n ==> is_operator_of(#[trigger] ops[k], k, d.interaction_events@[k], m, d)
    &&& p.manifold_signature@ == m.manifold_signature@
    &&& p.operator_count == n
    &&& is_dominant_kind(kinds(ops), p.dominant_operator_kind@)
    &&& p.aggregate_adjustment_pressure_percent == agg
    &&& p.operator_plan_signature@ == sig
    &&& p.operator_plan_hash@ == hex_nat(
        std_hash_of_str_u8_str(sig, agg as u8, p.dominant_operator_kind@) as nat,
    )
    &&& p.operator_plan_well_formed == (agg > 0 && forall|k: int|
        0 <= k < n ==> (#[trigger] ops[k]).manifold_alignment_percent > 0)
}

/// The verdict of the plan's preconditions: governed inputs that agree on
/// their manifold, with at least one interaction.
pub open spec fn plan_input_error(
    m: Phase90CognitiveManifold,
    d: Phase90MultiShapeInteractionDynamics,
) -> Option<Seq<char>> {
    if !m.manifold_well_formed {
        Some("cannot build adjustment plan from malformed manifold"@)
    } else if !d.dynamics_well_formed {
        Some("cannot build adjustment plan from malformed interaction dynamics"@)
    } else if m.manifold_signature@ != d.manifold_signature@ {
        Some("manifold/dynamics signature mismatch"@)
    } else if d.interaction_events@.len() == 0 {
        Some("cannot build adjustment plan without interaction events"@)
    } else {
        None
    }
}

/// The telemetry line published for a plan.
pub open spec fn plan_line(p: Phase90GeometryDrivenAdjustmentPlan) -> Seq<char> {
    "manifold_signature="@ + p.manifold_signature@ + ":operator_count="@ + dec_nat(
        p.operator_count as nat,
    ) + ":dominant_kind="@ + p.dominant_operator_kind@ + ":aggregate_pressure="@ + dec_nat(
        p.aggregate_adjustment_pressure_percent as nat,
    ) + ":plan_signature="@ + p.operator_plan_signature@ + ":plan_hash="@ + p.operator_plan_hash@
        + ":well_formed="@ + bool_text(p.operator_plan_well_formed)
}

proof fn lemma_sum_bounded(ops: Seq<Phase90GeometryDrivenAdjustmentOperator>, n: int)
    requires
        0 <= n <= ops.len(),
        forall|k: int| 0 <= k < ops.len() ==> (#[trigger] ops[k]).adjustment_pressure_percent <= 100,
    ensures
        0 <= sum_pressure(ops, n) <= 100 * n,
    decreases n,
{
    if n > 0 {
        lemma_sum_bounded(ops, n - 1);
    }
}

proof fn lemma_count_prefix(ks: Seq<Seq<char>>, k: Seq<char>, i: int)
    requires
        0 <= i < ks.len(),
    ensures
        count_of(ks.subrange(0, i + 1), k) == count_of(ks.subrange(0, i), k) + if ks[i] == k {
            1nat
        } else {
            0nat
        },
{
    assert(ks.subrange(0, i + 1).drop_last() =~= ks.subrange(0, i));
}

proof fn lemma_count_member(ks: Seq<Seq<char>>, i: int)
    requires
        0 <= i < ks.len(),
    ensures
        count_of(ks, ks[i]) >= 1,
    decreases ks.len(),
{
    if i < ks.len() - 1 {
        assert(ks.drop_last()[i] == ks[i]);
        lemma_count_member(ks.drop_last(), i);
    }
}

// ── kernel ───────────────────────────────────────────────────────────────────

fn kind_name(mode: &String) -> (s: String)
    ensures
        s@ == operator_kind(mode@),
{
    let resonant = text("resonant_exchange");
    let gradient = text("gradient_blend");
    let transfer = text("continuity_transfer");
    if same_text(mode, &resonant) {
        text("resonance_reweight")
    } else if same_text(mode, &gradient) {
        text("gradient_smooth")
    } else if same_text(mode, &transfer) {
        text("continuity_lift")
    } else {
        text("boundary_probe")
    }
}

fn count_kind(ops: &Vec<Phase90GeometryDrivenAdjustmentOperator>, k: &String) -> (c: usize)
    ensures
        c == count_of(kinds(ops@), k@),
{
    let mut c: usize = 0;
    let mut i: usize = 0;
    while i < ops.len()
        invariant
            i <= ops@.len(),
            c == count_of(kinds(ops@).subrange(0, i as int), k@),
            c <= i,
        decreases ops@.len() - i,
    {
        proof {
            lemma_count_prefix(kinds(ops@), k@, i as int);
        }
        if same_text(&ops[i].operator_kind, k) {
            c = c + 1;
        }
        i = i + 1;
    }
    assert(kinds(ops@).subrange(0, ops@.len() as int) =~= kinds(ops@));
    c
}

fn operator_line_text(op: &Phase90GeometryDrivenAdjustmentOperator) -> (line: String)
    ensures
        line@ == operator_line(*op),
{
    let mut line = text("");
    push_usize(&mut line, op.source_shape_index);
    push_str(&mut line, ":");
    push_usize(&mut line, op.target_shape_index);
    push_str(&mut line, ":");
    push_str(&mut line, op.operator_kind.as_str());
    push_str(&mut line, ":");
    push_u64(&mut line, op.adjustment_pressure_percent as u64);
    push_str(&mut line, ":");
    push_u64(&mut line, op.continuity_bias_percent as u64);
    proof {
        reveal_strlit("");
    }
    assert(line@ =~= operator_line(*op));
    line
}

/// Builds the adjustment plan for a governed manifold and its dynamics.
pub fn phase90_build_geometry_driven_adjustment_plan(
    manifold: &Phase90CognitiveManifold,
    dynamics: &Phase90MultiShapeInteractionDynamics,
) -> (r: Result<Phase90GeometryDrivenAdjustmentPlan, String>)
    requires
        dynamics.interaction_events@.len() * 100 <= u32::MAX,
    ensures
        match r {
            Ok(p) => plan_input_error(*manifold, *dynamics) is None && is_plan_of(p, *manifold, *dynamics),
            Err(e) => plan_input_error(*manifold, *dynamics) == Some(e@),
        },
{
    if !manifold.manifold_well_formed {
        return Err(text("cannot build adjustment plan from malformed manifold"));
    }
    if !dynamics.dynamics_well_formed {
        return Err(text("cannot build adjustment plan from malformed interaction dynamics"));
    }
    if !same_text(&manifold.manifold_signature, &dynamics.manifold_signature) {
        return Err(text("manifold/dynamics signature mismatch"));
    }
    let embedding = manifold.manifold_embedding_weight_percent;
    let shapes: u16 = if manifold.shape_count < 100 {
        manifold.shape_count as u16
    } else {
        100
    };
    let n = dynamics.interaction_events.len();
    let mut operators: Vec<Phase90GeometryDrivenAdjustmentOperator> = Vec::new();
    let mut k: usize = 0;
    while k < n
        invariant
            n == dynamics.interaction_events@.len(),
            embedding == manifold.manifold_embedding_weight_percent,
            shapes == (if manifold.shape_count < 100 {
                manifold.shape_count as int
            } else {
                100int
            }),
            k <= n,
            operators@.len() == k,
            forall|m: int|
                0 <= m < k ==> is_operator_of(
                    #[trigger] operators@[m],
                    m,
                    dynamics.interaction_events@[m],
                    *manifold,
                    *dynamics,
                ),
        decreases n - k,
    {
        let ev = &dynamics.interaction_events[k];
        let operator_kind = kind_name(&ev.interaction_mode);
        let press_raw: u16 = (ev.operator_pressure_percent as u16
            + dynamics.aggregate_operator_pressure_percent as u16) / 2;
        let adjustment_pressure_percent: u8 = if press_raw > 100 {
            100
        } else {
            press_raw as u8
        };
        let bias_raw: u16 = (ev.continuity_flow_percent as u16 + embedding as u16) / 2;
        let continuity_bias_percent: u8 = if bias_raw > 100 {
            100
        } else {
            bias_raw as u8
        };
        let align_raw: u16 = (ev.resonance_score_percent as u16 + embedding as u16 + shapes) / 3;
        let manifold_alignment_percent: u8 = if align_raw > 100 {
            100
        } else {
            align_raw as u8
        };
        let mut operator_id = text("");
        push_str(&mut operator_id, manifold.manifold_profile_hash.as_str());
        push_str(&mut operator_id, ":");
        push_usize(&mut operator_id, k);
        push_str(&mut operator_id, ":");
        push_usize(&mut operator_id, ev.from_shape_index);
        push_str(&mut operator_id, ":");
        push_usize(&mut operator_id, ev.to_shape_index);
        proof {
            reveal_strlit("");
            assert(operator_id@ =~= manifold.manifold_profile_hash@ + ":"@ + dec_nat(k as nat)
                + ":"@ + dec_nat(ev.from_shape_index as nat) + ":"@ + dec_nat(
                ev.to_shape_index as nat,
            ));
        }
        operators.push(
            Phase90GeometryDrivenAdjustmentOperator {
                operator_id,
                target_shape_index: ev.to_shape_index,
                source_shape_index: ev.from_shape_index,
                operator_kind,
                adjustment_pressure_percent,
                continuity_bias_percent,
                manifold_alignment_percent,
            },
        );
        k = k + 1;
    }
    if n == 0 {
        return Err(text("cannot build adjustment plan without interaction events"));
    }
    let mut total: u32 = 0;
    let mut all_aligned = true;
    let mut best_kind = text("");
    let mut best_count: usize = 0;
    let mut i: usize = 0;
    let ghost ks = kinds(operators@);
    while i < n
        invariant
            n == operators@.len(),
            n > 0,
            n * 100 <= u32::MAX,
            ks == kinds(operators@),
            forall|m: int| 0 <= m < n ==> (#[trigger] operators@[m]).adjustment_pressure_percent <= 100,
            i <= n,
            total == sum_pressure(operators@, i as int),
            all_aligned == (forall|m: int| 0 <= m < i ==> (#[trigger] operators@[m]).manifold_alignment_percent > 0),
            i > 0 ==> (exists|m: int| 0 <= m < i && ks[m] == best_kind@),
            i > 0 ==> best_count == count_of(ks, best_kind@),
            i == 0 ==> best_count == 0,
            forall|j: int|
                0 <= j < i ==> count_of(ks, #[trigger] ks[j]) < best_count || (count_of(ks, ks[j])
                    == best_count && !text_lt(ks[j], best_kind@)),
        decreases n - i,
    {
        proof {
            lemma_sum_bounded(operators@, i + 1);
        }
        total = total + operators[i].adjustment_pressure_percent as u32;
        all_aligned = all_aligned && operators[i].manifold_alignment_percent > 0;
        let c = count_kind(&operators, &operators[i].operator_kind);
        assert(ks[i as int] == operators@[i as int].operator_kind@);
        proof {
            lemma_count_member(ks, i as int);
        }
        if c > best_count || (c == best_count && less_than(
            operators[i].operator_kind.as_str(),
            best_kind.as_str(),
        )) {
            let ghost old_best = best_kind@;
            let ghost old_count = best_count;
            best_count = c;
            best_kind = operators[i].operator_kind.clone();
            proof {
                assert(ks[i as int] == best_kind@);
                assert forall|j: int| 0 <= j < i + 1 implies count_of(ks, #[trigger] ks[j]) < best_count
                    || (count_of(ks, ks[j]) == best_count && !text_lt(ks[j], best_kind@)) by {
                    if j < i && count_of(ks, ks[j]) == best_count && old_count == best_count {
                        if text_lt(ks[j], best_kind@) {
                            lemma_text_lt_transitive(ks[j], best_kind@, old_best);
                        }
                    }
                    if j == i {
                        crate::text::lemma_text_lt_irreflexive(best_kind@);
                    }
                }
            }
        } else {
            proof {
                if c == best_count && i > 0 {
                    if text_lt(ks[i as int], best_kind@) {
                    }
                }
            }
        }
        i = i + 1;
    }
    proof {
        lemma_sum_bounded(operators@, n as int);
        assert(sum_pressure(operators@, n as int) / (n as int) <= 100) by (nonlinear_arith)
            requires
                n >= 1,
                0 <= sum_pressure(operators@, n as int) <= 100 * n,
        ;
    }
    let aggregate = (total / (n as u32)) as u8;
    let mut lines: Vec<String> = Vec::new();
    let mut e: usize = 0;
    while e < n
        invariant
            n == operators@.len(),
            e <= n,
            lines@.len() == e,
            forall|m: int| 0 <= m < e ==> #[trigger] lines@[m]@ == operator_line(operators@[m]),
        decreases n - e,
    {
        lines.push(operator_line_text(&operators[e]));
        e = e + 1;
    }
    assert(views(lines@) =~= operator_lines(operators@));
    let joined = join_strings(&lines, "|");
    let mut signature = text("manifold=");
    push_str(&mut signature, manifold.manifold_signature.as_str());
    push_str(&mut signature, "|count=");
    push_usize(&mut signature, n);
    push_str(&mut signature, "|dominant=");
    push_str(&mut signature, best_kind.as_str());
    push_str(&mut signature, "|aggregate_pressure=");
    push_u64(&mut signature, aggregate as u64);
    push_str(&mut signature, "|operators=");
    push_str(&mut signature, joined.as_str());
    let h = default_hash_str_u8_str(signature.as_str(), aggregate, best_kind.as_str());
    let operator_plan_hash = hex_text(h);
    let operator_plan_well_formed = aggregate > 0 && best_kind.as_str().unicode_len() > 0
        && all_aligned;
    proof {
        let m = choose|m: int| 0 <= m < n && ks[m] == best_kind@;
        assert(operators@[m].operator_kind@ == operator_kind(dynamics.interaction_events@[m].interaction_mode@));
        reveal_strlit("resonance_reweight");
        reveal_strlit("gradient_smooth");
        reveal_strlit("continuity_lift");
        reveal_strlit("boundary_probe");
    }
    Ok(
        Phase90GeometryDrivenAdjustmentPlan {
            manifold_signature: manifold.manifold_signature.clone(),
            operator_count: n,
            dominant_operator_kind: best_kind,
            aggregate_adjustment_pressure_percent: aggregate,
            operators,
            operator_plan_signature: signature,
            operator_plan_hash,
            operator_plan_well_formed,
        },
    )
}

/// The telemetry line for a plan.
pub fn phase90_geometry_operator_telemetry_line(p: &Phase90GeometryDrivenAdjustmentPlan) -> (line:
    String)
    ensures
        line@ == plan_line(*p),
{
    let mut line = text("manifold_signature=");
    push_str(&mut line, p.manifold_signature.as_str());
    push_str(&mut line, ":operator_count=");
    push_usize(&mut line, p.operator_count);
    push_str(&mut line, ":dominant_kind=");
    push_str(&mut line, p.dominant_operator_kind.as_str());
    push_str(&mut line, ":aggregate_pressure=");
    push_u64(&mut line, p.aggregate_adjustment_pressure_percent as u64);
    push_str(&mut line, ":plan_signature=");
    push_str(&mut line, p.operator_plan_signature.as_str());
    push_str(&mut line, ":plan_hash=");
    push_str(&mut line, p.operator_plan_hash.as_str());
    push_str(&mut line, ":well_formed=");
    push_bool(&mut line, p.operator_plan_well_formed);
    line
}

} // verus!
