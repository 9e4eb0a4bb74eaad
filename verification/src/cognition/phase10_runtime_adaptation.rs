//! Runtime adaptation of an operator plan: the adjustment log a plan is
//! routed into, the stage records of its closed loop, the acceptance
//! policies, the gates that an adaptation bridge and its operator-weighted
//! transitions must pass, and the telemetry line of each stage.
use vstd::prelude::*;
use crate::cognition::phase90_geometry_driven_adjustment_operators::Phase90GeometryDrivenAdjustmentPlan;
use crate::text::{
    bool_text, contains_text, dec_int, dec_nat, has_sub, join, join_strings, push_bool, push_i64, push_str,
    push_u64, push_usize, same_text, text, views,
};

verus! {

/// One routed adjustment: a parameter moved from `pre_value` to
/// `post_value` by `delta`, undone by `inverse_delta`.
#[derive(Debug, Clone, PartialEq, Eq)]
pub struct Phase70AdjustmentLogEntry {
    pub sequence: u64,
    pub holdout_id: String,
    pub parameter_name: String,
    pub semantic_context_used: String,
    pub adjustment_applied: bool,
    pub pre_value: i32,
    pub post_value: i32,
    pub delta: i32,
    pub inverse_delta: i32,
}

/// The adjustments routed for an operator plan, in order.
#[derive(Debug, Clone, PartialEq, Eq)]
pub struct Phase70AdjustmentLog {
    pub entries: Vec<Phase70AdjustmentLogEntry>,
}

/// An operator plan routed into runtime parameter adjustments.
#[derive(Debug, Clone, PartialEq, Eq)]
pub struct Phase10RuntimeAdaptationBridge {
    pub manifold_signature: String,
    pub operator_plan_hash: String,
    pub adapted_entry_count: usize,
    pub aggregate_applied_delta: i32,
    pub routed_parameter_count: usize,
    pub routed_parameter_names: Vec<String>,
    pub adaptation_log: Phase70AdjustmentLog,
    pub adaptation_signature: String,
    pub adaptation_profile_hash: String,
    pub adaptation_well_formed: bool,
}

/// When a plan must route to several parameters: from
/// `min_operator_count_threshold` operators on, at least
/// `min_routed_parameter_diversity` distinct parameters.
#[derive(Debug, Clone, PartialEq, Eq)]
pub struct Phase10Slice2RoutingAcceptancePolicy {
    pub min_operator_count_threshold: usize,
    pub min_routed_parameter_diversity: usize,
}

/// A frame transition weighted by the operator routed to it.
#[derive(Debug, Clone, PartialEq, Eq)]
pub struct Phase10OperatorWeightedFrameTransition {
    pub from_frame_id: String,
    pub to_frame_id: String,
    pub entry_allowed: bool,
    pub exit_allowed: bool,
    pub continuity_preserved: bool,
    pub transition_reason: String,
    pub operator_kind: String,
    pub operator_weight_percent: u8,
}

/// The operator-weighted transitions of an adapted run.
#[derive(Debug, Clone, PartialEq, Eq)]
pub struct Phase10OperatorRuntimeIntegration {
    pub operator_plan_hash: String,
    pub adaptation_profile_hash: String,
    pub weighted_transition_count: usize,
    pub aggregate_operator_weight_percent: u8,
    pub weighted_transitions: Vec<Phase10OperatorWeightedFrameTransition>,
    pub integration_signature: String,
    pub integration_profile_hash: String,
    pub integration_well_formed: bool,
}

/// The record of one closed adaptation loop that passed both gates.
#[derive(Debug, Clone, PartialEq, Eq)]
pub struct Phase10ClosedLoopIntegrityStage {
    pub operator_plan_hash: String,
    pub adaptation_profile_hash: String,
    pub integration_profile_hash: String,
    pub routed_parameter_count: usize,
    pub weighted_transition_count: usize,
    pub aggregate_operator_weight_percent: u8,
    pub continuity_gate_passed: bool,
    pub integrity_signature: String,
    pub integrity_profile_hash: String,
    pub integrity_well_formed: bool,
}

/// The record of a replayed regeneration that stayed identical.
#[derive(Debug, Clone, PartialEq, Eq)]
pub struct Phase10TopLevelAcceptanceStage {
    pub operator_plan_hash: String,
    pub replay_count: usize,
    pub baseline_feedback_hash: String,
    pub baseline_seed_hash: String,
    pub acceptance_signature: String,
    pub acceptance_profile_hash: String,
    pub acceptance_well_formed: bool,
}

/// The record of several feedback cycles that kept their profile.
#[derive(Debug, Clone, PartialEq, Eq)]
pub struct Phase10Slice7MultiCycleReplayAcceptanceStage {
    pub baseline_operator_plan_hash: String,
    pub cycle_count: usize,
    pub cycle_plan_hashes: Vec<String>,
    pub cycle_feedback_hashes: Vec<String>,
    pub cycle_seed_hashes: Vec<String>,
    pub baseline_transition_count: usize,
    pub baseline_continuity_weight_percent: u8,
    pub baseline_operator_weight_percent: u8,
    pub acceptance_signature: String,
    pub acceptance_profile_hash: String,
    pub acceptance_well_formed: bool,
}

/// The record of several multi-cycle loops that converged.
#[derive(Debug, Clone, PartialEq, Eq)]
pub struct Phase11MultiLoopConvergenceStage {
    pub baseline_operator_plan_hash: String,
    pub loop_count: usize,
    pub cycle_count_per_loop: usize,
    pub convergence_loop_index: usize,
    pub loop_acceptance_hashes: Vec<String>,
    pub loop_terminal_plan_hashes: Vec<String>,
    pub loop_terminal_seed_hashes: Vec<String>,
    pub baseline_transition_count: usize,
    pub baseline_continuity_weight_percent: u8,
    pub baseline_operator_weight_percent: u8,
    pub convergence_signature: String,
    pub convergence_profile_hash: String,
    pub convergence_well_formed: bool,
}

/// The envelope each weighted transition must keep: an operator weight
/// within bounds and a routed delta of at most
/// `max_runtime_delta_per_transition` either way.
#[derive(Debug, Clone, PartialEq, Eq)]
pub struct Phase10Slice4RuntimeContinuityPolicy {
    pub min_operator_weight_percent: u8,
    pub max_operator_weight_percent: u8,
    pub max_runtime_delta_per_transition: i32,
}

impl Phase10Slice2RoutingAcceptancePolicy {
    /// Three operators or more must route to at least two parameters.
    pub fn canonical() -> (p: Self)
        ensures
            p.min_operator_count_threshold == 3,
            p.min_routed_parameter_diversity == 2,
    {
        Phase10Slice2RoutingAcceptancePolicy { min_operator_count_threshold: 3, min_routed_parameter_diversity: 2 }
    }
}

impl Phase10Slice4RuntimeContinuityPolicy {
    /// Operator weights from 40 to 100 percent, deltas of at most one.
    pub fn canonical() -> (p: Self)
        ensures
            p.min_operator_weight_percent == 40,
            p.max_operator_weight_percent == 100,
            p.max_runtime_delta_per_transition == 1,
    {
        Phase10Slice4RuntimeContinuityPolicy {
            min_operator_weight_percent: 40,
            max_operator_weight_percent: 100,
            max_runtime_delta_per_transition: 1,
        }
    }
}

// ── gates ────────────────────────────────────────────────────────────────────

/// The verdict of the routing gate: `None` when the bridge passes.
pub open spec fn routing_gate_error(
    plan: Phase90GeometryDrivenAdjustmentPlan,
    bridge: Phase10RuntimeAdaptationBridge,
    policy: Phase10Slice2RoutingAcceptancePolicy,
) -> Option<Seq<char>> {
    if policy.min_routed_parameter_diversity == 0 {
        Some("invalid slice2 policy: min_routed_parameter_diversity must be >= 1"@)
    } else if !bridge.adaptation_well_formed {
        Some("slice2 acceptance failed: adaptation bridge is not well formed"@)
    } else if plan.operator_plan_hash@ != bridge.operator_plan_hash@ {
        Some("slice2 acceptance failed: plan/bridge hash mismatch"@)
    } else if plan.operator_count < policy.min_operator_count_threshold {
        None
    } else if bridge.routed_parameter_count < policy.min_routed_parameter_diversity {
        Some(
            "slice2 acceptance failed: routed parameter diversity "@ + dec_nat(bridge.routed_parameter_count as nat)
                + " below required "@ + dec_nat(policy.min_routed_parameter_diversity as nat)
                + " when operator_count="@ + dec_nat(plan.operator_count as nat) + " (threshold="@
                + dec_nat(policy.min_operator_count_threshold as nat) + ")"@,
        )
    } else {
        None
    }
}

/// Checks that a bridge routes a plan with enough parameter diversity.
pub fn phase10_validate_slice2_routing_acceptance_gate(
    plan: &Phase90GeometryDrivenAdjustmentPlan,
    bridge: &Phase10RuntimeAdaptationBridge,
    policy: &Phase10Slice2RoutingAcceptancePolicy,
) -> (r: Result<(), String>)
    ensures
        match r {
            Ok(_) => routing_gate_error(*plan, *bridge, *policy) is None,
            Err(e) => routing_gate_error(*plan, *bridge, *policy) == Some(e@),
        },
{
    if policy.min_routed_parameter_diversity == 0 {
        return Err(text("invalid slice2 policy: min_routed_parameter_diversity must be >= 1"));
    }
    if !bridge.adaptation_well_formed {
        return Err(text("slice2 acceptance failed: adaptation bridge is not well formed"));
    }
    if !same_text(&plan.operator_plan_hash, &bridge.operator_plan_hash) {
        return Err(text("slice2 acceptance failed: plan/bridge hash mismatch"));
    }
    if plan.operator_count < policy.min_operator_count_threshold {
        return Ok(());
    }
    if bridge.routed_parameter_count < policy.min_routed_parameter_diversity {
        let mut e = text("slice2 acceptance failed: routed parameter diversity ");
        push_usize(&mut e, bridge.routed_parameter_count);
        push_str(&mut e, " below required ");
        push_usize(&mut e, policy.min_routed_parameter_diversity);
        push_str(&mut e, " when operator_count=");
        push_usize(&mut e, plan.operator_count);
        push_str(&mut e, " (threshold=");
        push_usize(&mut e, policy.min_operator_count_threshold);
        push_str(&mut e, ")");
        return Err(e);
    }
    Ok(())
}

pub open spec fn abs_int(x: int) -> int {
    if x < 0 {
        -x
    } else {
        x
    }
}

/// The first weighted transition, from `i` on, that breaks the envelope
/// or continuity, as the continuity gate's message.
pub open spec fn first_transition_error(
    ts: Seq<Phase10OperatorWeightedFrameTransition>,
    es: Seq<Phase70AdjustmentLogEntry>,
    policy: Phase10Slice4RuntimeContinuityPolicy,
    i: int,
) -> Option<Seq<char>>
    decreases ts.len() - i,
{
    if i < 0 || i >= ts.len() {
        None
    } else if ts[i].operator_weight_percent < policy.min_operator_weight_percent
        || ts[i].operator_weight_percent > policy.max_operator_weight_percent {
        Some("phase10_slice4_reject_operator_weight_out_of_bounds"@)
    } else if i >= es.len() {
        Some("phase10_slice4_reject_transition_count_mismatch"@)
    } else if abs_int(es[i].delta as int) > policy.max_runtime_delta_per_transition {
        Some("phase10_slice4_reject_envelope_delta_exceeded"@)
    } else if !ts[i].continuity_preserved || !ts[i].entry_allowed || !ts[i].exit_allowed || !has_sub(
        ts[i].transition_reason@,
        "operator_kind="@,
    ) {
        Some("phase10_slice4_reject_continuity_violation"@)
    } else {
        first_transition_error(ts, es, policy, i + 1)
    }
}

/// The verdict of the continuity gate: `None` when the integration passes.
pub open spec fn continuity_gate_error(
    plan: Phase90GeometryDrivenAdjustmentPlan,
    bridge: Phase10RuntimeAdaptationBridge,
    integration: Phase10OperatorRuntimeIntegration,
    policy: Phase10Slice4RuntimeContinuityPolicy,
) -> Option<Seq<char>> {
    if !integration.integration_well_formed || !bridge.adaptation_well_formed {
        Some("phase10_slice4_reject_integration_not_well_formed"@)
    } else if plan.operator_plan_hash@ != bridge.operator_plan_hash@ || plan.operator_plan_hash@
        != integration.operator_plan_hash@ || bridge.adaptation_profile_hash@
        != integration.adaptation_profile_hash@ {
        Some("phase10_slice4_reject_hash_mismatch"@)
    } else if integration.weighted_transition_count != bridge.adaptation_log.entries@.len()
        || integration.weighted_transition_count != integration.weighted_transitions@.len() {
        Some("phase10_slice4_reject_transition_count_mismatch"@)
    } else {
        first_transition_error(integration.weighted_transitions@, bridge.adaptation_log.entries@, policy, 0)
    }
}

/// Checks that the weighted transitions of an integration keep the
/// runtime envelope and frame continuity of its bridge.
pub fn phase10_validate_runtime_continuity_preservation(
    plan: &Phase90GeometryDrivenAdjustmentPlan,
    bridge: &Phase10RuntimeAdaptationBridge,
    integration: &Phase10OperatorRuntimeIntegration,
    policy: &Phase10Slice4RuntimeContinuityPolicy,
) -> (r: Result<(), String>)
    requires
        forall|k: int|
            0 <= k < bridge.adaptation_log.entries@.len() ==> #[trigger] bridge.adaptation_log.entries@[k].delta
                > i32::MIN,
    ensures
        match r {
            Ok(_) => continuity_gate_error(*plan, *bridge, *integration, *policy) is None,
            Err(e) => continuity_gate_error(*plan, *bridge, *integration, *policy) == Some(e@),
        },
{
    if !integration.integration_well_formed || !bridge.adaptation_well_formed {
        return Err(text("phase10_slice4_reject_integration_not_well_formed"));
    }
    if !same_text(&plan.operator_plan_hash, &bridge.operator_plan_hash) || !same_text(
        &plan.operator_plan_hash,
        &integration.operator_plan_hash,
    ) || !same_text(&bridge.adaptation_profile_hash, &integration.adaptation_profile_hash) {
        return Err(text("phase10_slice4_reject_hash_mismatch"));
    }
    if integration.weighted_transition_count != bridge.adaptation_log.entries.len()
        || integration.weighted_transition_count != integration.weighted_transitions.len() {
        return Err(text("phase10_slice4_reject_transition_count_mismatch"));
    }
    let ts = &integration.weighted_transitions;
    let es = &bridge.adaptation_log.entries;
    let mut i: usize = 0;
    while i < ts.len()
        invariant
            i <= ts@.len(),
            forall|k: int| 0 <= k < es@.len() ==> #[trigger] es@[k].delta > i32::MIN,
            ts@ == integration.weighted_transitions@,
            es@ == bridge.adaptation_log.entries@,
            continuity_gate_error(*plan, *bridge, *integration, *policy) == first_transition_error(
                ts@,
                es@,
                *policy,
                i as int,
            ),
        decreases ts@.len() - i,
    {
        let t = &ts[i];
        if t.operator_weight_percent < policy.min_operator_weight_percent || t.operator_weight_percent
            > policy.max_operator_weight_percent {
            return Err(text("phase10_slice4_reject_operator_weight_out_of_bounds"));
        }
        if i >= es.len() {
            return Err(text("phase10_slice4_reject_transition_count_mismatch"));
        }
        let d = es[i].delta;
        let magnitude: i32 = if d < 0 {
            -d
        } else {
            d
        };
        if magnitude > policy.max_runtime_delta_per_transition {
            return Err(text("phase10_slice4_reject_envelope_delta_exceeded"));
        }
        if !t.continuity_preserved || !t.entry_allowed || !t.exit_allowed || !contains_text(
            t.transition_reason.as_str(),
            "operator_kind=",
        ) {
            return Err(text("phase10_slice4_reject_continuity_violation"));
        }
        i = i + 1;
    }
    Ok(())
}

// ── telemetry ────────────────────────────────────────────────────────────────

/// The telemetry line published for an adaptation bridge.
pub open spec fn bridge_line(b: Phase10RuntimeAdaptationBridge) -> Seq<char> {
    "manifold_signature="@ + b.manifold_signature@ + ":operator_plan_hash="@ + b.operator_plan_hash@
        + ":entry_count="@ + dec_nat(b.adapted_entry_count as nat) + ":aggregate_delta="@ + dec_int(
        b.aggregate_applied_delta as int,
    ) + ":routed_parameter_count="@ + dec_nat(b.routed_parameter_count as nat) + ":routed_parameters="@
        + join(views(b.routed_parameter_names@), ","@) + ":adaptation_signature="@ + b.adaptation_signature@
        + ":adaptation_hash="@ + b.adaptation_profile_hash@ + ":well_formed="@ + bool_text(
        b.adaptation_well_formed,
    )
}

/// The telemetry line published for an operator runtime integration.
pub open spec fn integration_line(i: Phase10OperatorRuntimeIntegration) -> Seq<char> {
    "operator_plan_hash="@ + i.operator_plan_hash@ + ":adaptation_profile_hash="@ + i.adaptation_profile_hash@
        + ":weighted_transition_count="@ + dec_nat(i.weighted_transition_count as nat)
        + ":aggregate_operator_weight="@ + dec_nat(i.aggregate_operator_weight_percent as nat)
        + ":integration_signature="@ + i.integration_signature@ + ":integration_hash="@
        + i.integration_profile_hash@ + ":well_formed="@ + bool_text(i.integration_well_formed)
}

/// The telemetry line published for a top-level acceptance.
pub open spec fn acceptance_line(a: Phase10TopLevelAcceptanceStage) -> Seq<char> {
    "operator_plan_hash="@ + a.operator_plan_hash@ + ":replay_count="@ + dec_nat(a.replay_count as nat)
        + ":baseline_feedback_hash="@ + a.baseline_feedback_hash@ + ":baseline_seed_hash="@
        + a.baseline_seed_hash@ + ":acceptance_signature="@ + a.acceptance_signature@ + ":acceptance_hash="@
        + a.acceptance_profile_hash@ + ":well_formed="@ + bool_text(a.acceptance_well_formed)
}

/// The telemetry line published for a multi-cycle acceptance.
pub open spec fn multicycle_line(a: Phase10Slice7MultiCycleReplayAcceptanceStage) -> Seq<char> {
    "baseline_plan_hash="@ + a.baseline_operator_plan_hash@ + ":cycle_count="@ + dec_nat(a.cycle_count as nat)
        + ":baseline_transition_count="@ + dec_nat(a.baseline_transition_count as nat)
        + ":baseline_continuity_weight="@ + dec_nat(a.baseline_continuity_weight_percent as nat)
        + ":baseline_operator_weight="@ + dec_nat(a.baseline_operator_weight_percent as nat)
        + ":acceptance_hash="@ + a.acceptance_profile_hash@ + ":well_formed="@ + bool_text(
        a.acceptance_well_formed,
    )
}

/// The telemetry line published for a multi-loop convergence.
pub open spec fn convergence_line(c: Phase11MultiLoopConvergenceStage) -> Seq<char> {
    "baseline_plan_hash="@ + c.baseline_operator_plan_hash@ + ":loop_count="@ + dec_nat(c.loop_count as nat)
        + ":cycle_count_per_loop="@ + dec_nat(c.cycle_count_per_loop as nat) + ":convergence_loop_index="@
        + dec_nat(c.convergence_loop_index as nat) + ":baseline_transition_count="@ + dec_nat(
        c.baseline_transition_count as nat,
    ) + ":baseline_continuity_weight="@ + dec_nat(c.baseline_continuity_weight_percent as nat)
        + ":baseline_operator_weight="@ + dec_nat(c.baseline_operator_weight_percent as nat)
        + ":convergence_hash="@ + c.convergence_profile_hash@ + ":well_formed="@ + bool_text(
        c.convergence_well_formed,
    )
}

/// The telemetry line for an adaptation bridge.
pub fn phase10_runtime_adaptation_telemetry_line(bridge: &Phase10RuntimeAdaptationBridge) -> (line: String)
    ensures
        line@ == bridge_line(*bridge),
{
    let names = join_strings(&bridge.routed_parameter_names, ",");
    let mut line = text("manifold_signature=");
    push_str(&mut line, bridge.manifold_signature.as_str());
    push_str(&mut line, ":operator_plan_hash=");
    push_str(&mut line, bridge.operator_plan_hash.as_str());
    push_str(&mut line, ":entry_count=");
    push_usize(&mut line, bridge.adapted_entry_count);
    push_str(&mut line, ":aggregate_delta=");
    push_i64(&mut line, bridge.aggregate_applied_delta as i64);
    push_str(&mut line, ":routed_parameter_count=");
    push_usize(&mut line, bridge.routed_parameter_count);
    push_str(&mut line, ":routed_parameters=");
    push_str(&mut line, names.as_str());
    push_str(&mut line, ":adaptation_signature=");
    push_str(&mut line, bridge.adaptation_signature.as_str());
    push_str(&mut line, ":adaptation_hash=");
    push_str(&mut line, bridge.adaptation_profile_hash.as_str());
    push_str(&mut line, ":well_formed=");
    push_bool(&mut line, bridge.adaptation_well_formed);
    line
}

/// The telemetry line for an operator runtime integration.
pub fn phase10_operator_runtime_integration_telemetry_line(integration: &Phase10OperatorRuntimeIntegration) -> (line:
    String)
    ensures
        line@ == integration_line(*integration),
{
    let mut line = text("operator_plan_hash=");
    push_str(&mut line, integration.operator_plan_hash.as_str());
    push_str(&mut line, ":adaptation_profile_hash=");
    push_str(&mut line, integration.adaptation_profile_hash.as_str());
    push_str(&mut line, ":weighted_transition_count=");
    push_usize(&mut line, integration.weighted_transition_count);
    push_str(&mut line, ":aggregate_operator_weight=");
    push_u64(&mut line, integration.aggregate_operator_weight_percent as u64);
    push_str(&mut line, ":integration_signature=");
    push_str(&mut line, integration.integration_signature.as_str());
    push_str(&mut line, ":integration_hash=");
    push_str(&mut line, integration.integration_profile_hash.as_str());
    push_str(&mut line, ":well_formed=");
    push_bool(&mut line, integration.integration_well_formed);
    line
}

/// The telemetry line for a top-level acceptance.
pub fn phase10_top_level_acceptance_telemetry_line(acceptance: &Phase10TopLevelAcceptanceStage) -> (line: String)
    ensures
        line@ == acceptance_line(*acceptance),
{
    let mut line = text("operator_plan_hash=");
    push_str(&mut line, acceptance.operator_plan_hash.as_str());
    push_str(&mut line, ":replay_count=");
    push_usize(&mut line, acceptance.replay_count);
    push_str(&mut line, ":baseline_feedback_hash=");
    push_str(&mut line, acceptance.baseline_feedback_hash.as_str());
    push_str(&mut line, ":baseline_seed_hash=");
    push_str(&mut line, acceptance.baseline_seed_hash.as_str());
    push_str(&mut line, ":acceptance_signature=");
    push_str(&mut line, acceptance.acceptance_signature.as_str());
    push_str(&mut line, ":acceptance_hash=");
    push_str(&mut line, acceptance.acceptance_profile_hash.as_str());
    push_str(&mut line, ":well_formed=");
    push_bool(&mut line, acceptance.acceptance_well_formed);
    line
}

/// The telemetry line for a multi-cycle acceptance.
pub fn phase10_slice7_multicycle_telemetry_line(acceptance: &Phase10Slice7MultiCycleReplayAcceptanceStage) -> (line:
    String)
    ensures
        line@ == multicycle_line(*acceptance),
{
    let mut line = text("baseline_plan_hash=");
    push_str(&mut line, acceptance.baseline_operator_plan_hash.as_str());
    push_str(&mut line, ":cycle_count=");
    push_usize(&mut line, acceptance.cycle_count);
    push_str(&mut line, ":baseline_transition_count=");
    push_usize(&mut line, acceptance.baseline_transition_count);
    push_str(&mut line, ":baseline_continuity_weight=");
    push_u64(&mut line, acceptance.baseline_continuity_weight_percent as u64);
    push_str(&mut line, ":baseline_operator_weight=");
    push_u64(&mut line, acceptance.baseline_operator_weight_percent as u64);
    push_str(&mut line, ":acceptance_hash=");
    push_str(&mut line, acceptance.acceptance_profile_hash.as_str());
    push_str(&mut line, ":well_formed=");
    push_bool(&mut line, acceptance.acceptance_well_formed);
    line
}

/// The telemetry line for a multi-loop convergence.
pub fn phase11_multi_loop_convergence_telemetry_line(convergence: &Phase11MultiLoopConvergenceStage) -> (line:
    String)
    ensures
        line@ == convergence_line(*convergence),
{
    let mut line = text("baseline_plan_hash=");
    push_str(&mut line, convergence.baseline_operator_plan_hash.as_str());
    push_str(&mut line, ":loop_count=");
    push_usize(&mut line, convergence.loop_count);
    push_str(&mut line, ":cycle_count_per_loop=");
    push_usize(&mut line, convergence.cycle_count_per_loop);
    push_str(&mut line, ":convergence_loop_index=");
    push_usize(&mut line, convergence.convergence_loop_index);
    push_str(&mut line, ":baseline_transition_count=");
    push_usize(&mut line, convergence.baseline_transition_count);
    push_str(&mut line, ":baseline_continuity_weight=");
    push_u64(&mut line, convergence.baseline_continuity_weight_percent as u64);
    push_str(&mut line, ":baseline_operator_weight=");
    push_u64(&mut line, convergence.baseline_operator_weight_percent as u64);
    push_str(&mut line, ":convergence_hash=");
    push_str(&mut line, convergence.convergence_profile_hash.as_str());
    push_str(&mut line, ":well_formed=");
    push_bool(&mut line, convergence.convergence_well_formed);
    line
}

} // verus!
