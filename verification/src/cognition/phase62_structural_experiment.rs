//! Structural experiments on constraint sets: opt-in probes that add
//! bridge, cohesion, plateau and contradiction-relief constraints for a
//! chosen subject, each idempotent once its constraints are present.
//!
//! Everything here is a function of its arguments. What the probes read
//! from the process environment (the target novelty, the runtime summary,
//! the cached repair plan) arrives as a `Phase62Environment`, and what they
//! publish comes back as variable assignments in a `Phase62Outcome`.
use vstd::prelude::*;
use crate::cognition::constraint::{ConstraintKind, SemanticConstraint};
use crate::cognition::phase62_subject_selection::{
    best, distinct_subjects, lemma_total_sum_bounds, select_subject, subjects_of, total_of,
    total_sum, Metric, Selector, MAX_CONSTRAINTS,
};
use crate::cognition::phase63_topology_repair::{
    aviews, classify_phase63_regime, from62, phase63_ranks_fit, phase63_runtime_fits,
    phase63_runtime_summary_from_phase62, plan_views, rebase_telemetry, regime_of, repair_inputs_fit,
    runtime_fits as repair_runtime_fits,
    scaffold_continuity_rebase_telemetry_v66, scaffold_topology_guided_contradiction_repair_v63,
    topology_repair, Assignment, Phase63RepairPlan, TView,
};
use crate::text::{ends_with_text, trim_text, trim_ws, ascii_lower, contains_ascii_lower, dec_int, dec_nat, ends_with_ascii_lower,
    has_sub, has_suffix, lemma_strictly_sorted_texts_unique, push_i64, push_str, push_usize,
    strictly_sorted_texts, text, views};

verus! {

pub const PHASE62_RECOVERY_BRIDGE_PREDICATE: &'static str = "phase62/recovery_anchor_region_bridge";
pub const PHASE62_V2_REGION_COHESION_PREDICATE: &'static str = "phase62/v2_region_cohesion_stabilizer_probe";
pub const PHASE62_V2_EXTERNAL_DAMPEN_PREDICATE: &'static str = "phase62/v2_external_change_dampening_probe";
pub const PHASE62_V2_PLATEAU_CONTINUITY_LIFT_PREDICATE: &'static str = "phase62/v2_plateau_continuity_lift_probe";
pub const PHASE62_V2_PLATEAU_ANCHOR_REINFORCEMENT_PREDICATE: &'static str = "phase62/v2_plateau_anchor_reinforcement_probe";
pub const PHASE62_V3_CONTRADICTION_RELIEF_PREDICATE: &'static str = "phase62/v3_contradiction_relief_probe";
pub const PHASE62_V3_CONTINUITY_REBINDING_PREDICATE: &'static str = "phase62/v3_continuity_rebinding_probe";
pub const PHASE62_V3B_CLOSURE_REGION_REPAIR_PREDICATE: &'static str = "phase62/v3b_closure_region_repair_probe";
pub const PHASE62_ANCHOR_CLOSURE_SPINE_PREDICATE: &'static str = "phase62/anchor_closure_spine_candidate";

/// Which structural experiment runs.
#[derive(Debug, Clone, Copy, PartialEq, Eq, Structural)]
pub enum Phase62ExperimentKind {
    AnchorClosureSpineV1,
    RegionMergeSplitStabilizationV1,
    ManifoldDriftSuppressionV1,
    ContradictionReliefV1,
    ContradictionClosureRegimeV2,
    TopologyGuidedContradictionRepairV3,
    ContinuityRebaseTelemetryV6,
}

/// The primary experiment and its follow-ons.
#[derive(Debug, Clone, Copy, PartialEq, Eq)]
pub struct Phase62ExperimentPlan {
    pub primary: Phase62ExperimentKind,
    pub follow_ons: [Phase62ExperimentKind; 4],
}

impl Phase62ExperimentPlan {
    /// The anchor spine first, then region stabilization, drift suppression,
    /// contradiction relief and the closure regime.
    pub fn new() -> (p: Self)
        ensures
            p.primary == Phase62ExperimentKind::AnchorClosureSpineV1,
            p.follow_ons@ == seq![
                Phase62ExperimentKind::RegionMergeSplitStabilizationV1,
                Phase62ExperimentKind::ManifoldDriftSuppressionV1,
                Phase62ExperimentKind::ContradictionReliefV1,
                Phase62ExperimentKind::ContradictionClosureRegimeV2,
            ],
    {
        let p = Phase62ExperimentPlan {
            primary: Phase62ExperimentKind::AnchorClosureSpineV1,
            follow_ons: [
                Phase62ExperimentKind::RegionMergeSplitStabilizationV1,
                Phase62ExperimentKind::ManifoldDriftSuppressionV1,
                Phase62ExperimentKind::ContradictionReliefV1,
                Phase62ExperimentKind::ContradictionClosureRegimeV2,
            ],
        };
        assert(p.follow_ons@ =~= seq![
            Phase62ExperimentKind::RegionMergeSplitStabilizationV1,
            Phase62ExperimentKind::ManifoldDriftSuppressionV1,
            Phase62ExperimentKind::ContradictionReliefV1,
            Phase62ExperimentKind::ContradictionClosureRegimeV2,
        ]);
        p
    }
}

/// The regime a closure probe takes.
#[derive(Debug, Clone, Copy, PartialEq, Eq, Structural)]
pub enum Phase62V3Branch {
    LegacyNoveltyFallback,
    ClosureReadyContradictionRelief,
    ClosureDeficitClosureRepair,
}

/// Runtime measurements before and after the pre-pass.
#[derive(Debug, Clone, Copy, PartialEq, Eq, Structural)]
pub struct Phase62RuntimeSummary {
    pub continuity_before: i64,
    pub continuity_after_pre: i64,
    pub regions_before: usize,
    pub regions_after_pre: usize,
    pub anchors_before: usize,
    pub anchors_after_pre: usize,
    pub external_before: i64,
    pub external_after_pre: i64,
    pub support_signal: i64,
    pub contradiction_signal: i64,
}

/// How a structural experiment is run.
#[derive(Debug, Clone, Copy)]
pub struct Phase62StructuralConfig {
    pub enabled: bool,
    pub kind: Phase62ExperimentKind,
    pub max_bridge_constraints_per_subject: usize,
    pub bridge_weight: u8,
}

impl Default for Phase62StructuralConfig {
    /// Disabled, anchor spine, one bridge per subject, weight 6.
    fn default() -> (c: Self)
        ensures
            !c.enabled,
            c.kind == Phase62ExperimentKind::AnchorClosureSpineV1,
            c.max_bridge_constraints_per_subject == 1,
            c.bridge_weight == 6,
    {
        Phase62StructuralConfig {
            enabled: false,
            kind: Phase62ExperimentKind::AnchorClosureSpineV1,
            max_bridge_constraints_per_subject: 1,
            bridge_weight: 6,
        }
    }
}

/// What an experiment did.
#[derive(Debug, Clone)]
pub struct Phase62StructuralReport {
    pub applied: bool,
    pub generated_constraints: usize,
    pub note: String,
}


/// What the experiments read from the process environment, as plain
/// values: the target novelty, the runtime summary (present only when every
/// measurement was set and parsed), the escalation hand-off setting, and the
/// cached canonical repair (holdout, parsed plan, regime).
#[derive(Debug, Clone)]
pub struct Phase62Environment {
    pub target_novelty: Option<String>,
    pub runtime_summary: Option<Phase62RuntimeSummary>,
    pub escalation_handoff: Option<String>,
    pub canonical_target: Option<String>,
    pub canonical_plan: Option<Phase63RepairPlan>,
    pub canonical_regime: Option<String>,
}

/// What an experiment produced: the constraints, the report, the
/// environment assignments to publish in order, and the canonical repair
/// plan to store (serialized) where one was computed.
#[derive(Debug, Clone)]
pub struct Phase62Outcome {
    pub constraints: Vec<SemanticConstraint>,
    pub report: Phase62StructuralReport,
    pub assignments: Vec<(String, String)>,
    pub canonical_plan: Option<Phase63RepairPlan>,
}

// ── model ────────────────────────────────────────────────────────────────────

/// A constraint as plain values: subject, predicate, object, polarity,
/// kind, weight.
pub type CView = (Seq<char>, Seq<char>, Option<Seq<char>>, bool, ConstraintKind, u8);

pub open spec fn cview(c: SemanticConstraint) -> CView {
    (
        c.subject@,
        c.predicate@,
        match c.object {
            Some(o) => Some(o@),
            None => None,
        },
        c.affirmed,
        c.kind,
        c.weight,
    )
}

pub open spec fn cviews(s: Seq<SemanticConstraint>) -> Seq<CView> {
    s.map_values(|c: SemanticConstraint| cview(c))
}

pub open spec fn assertion_view(subject: Seq<char>, predicate: Seq<char>, weight: int) -> CView {
    (subject, predicate, None, true, ConstraintKind::Assertion, weight as u8)
}

pub open spec fn link_view(subject: Seq<char>, predicate: Seq<char>, object: Seq<char>, weight: int) -> CView {
    (subject, predicate, Some(object), true, ConstraintKind::Link, weight as u8)
}

/// `u8::saturating_add`.
pub open spec fn sat_add(a: u8, b: int) -> int {
    if a + b > 255 {
        255
    } else {
        a + b
    }
}

/// A probe's result as plain values: constraints, applied, generated, note.
pub type ProbeView = (Seq<CView>, bool, int, Seq<char>);

pub open spec fn probe_view(r: (Vec<SemanticConstraint>, Phase62StructuralReport)) -> ProbeView {
    (cviews(r.0@), r.1.applied, r.1.generated_constraints as int, r.1.note@)
}

/// The constraints left as they are, with a note.
pub open spec fn unchanged(s: Seq<SemanticConstraint>, note: Seq<char>) -> ProbeView {
    (cviews(s), false, 0, note)
}

/// Some constraint has predicate `p`.
pub open spec fn any_predicate(s: Seq<SemanticConstraint>, p: Seq<char>) -> bool {
    exists|i: int| 0 <= i < s.len() && #[trigger] s[i].predicate@ == p
}

/// At least one and at most `cap` generated constraints per subject.
pub open spec fn generation_cap(config: Phase62StructuralConfig, cap: int) -> int {
    let n = config.max_bridge_constraints_per_subject as int;
    if n < 1 {
        1
    } else if n > cap {
        cap
    } else {
        n
    }
}

/// The recovery bridge: the highest-coherence subject linked to the most
/// stable other subject.
pub open spec fn recovery_bridge(s: Seq<SemanticConstraint>, config: Phase62StructuralConfig, t: Seq<char>) -> ProbeView {
    if any_predicate(s, "phase62/recovery_anchor_region_bridge"@) {
        unchanged(s, "phase62 recovery bridge already present for target "@ + t)
    } else {
        match best(Selector::Anchor, s, Seq::empty()) {
            None => unchanged(s, "phase62 recovery bridge skipped for target "@ + t + ": no anchor candidate"@),
            Some(a) => match best(Selector::StableRegion, s, a) {
                None => unchanged(s, "phase62 recovery bridge skipped for target "@ + t + ": no region candidate"@),
                Some(r) => (
                    cviews(s).push(link_view(a, "phase62/recovery_anchor_region_bridge"@, r, config.bridge_weight as int)),
                    true,
                    1,
                    "phase62 recovery bridge "@ + a + " -> "@ + r + " for target "@ + t,
                ),
            },
        }
    }
}

/// The continuity/external probe: the most stressed subject gets a cohesion
/// stabilizer and, where two constraints are allowed, a dampening link to the
/// anchor.
pub open spec fn external_probe(s: Seq<SemanticConstraint>, config: Phase62StructuralConfig, t: Seq<char>) -> ProbeView {
    if any_predicate(s, "phase62/v2_region_cohesion_stabilizer_probe"@) || any_predicate(
        s,
        "phase62/v2_external_change_dampening_probe"@,
    ) {
        unchanged(s, "phase62 v2 continuity/external probe already present for target "@ + t)
    } else {
        match best(Selector::ExternalStress, s, Seq::empty()) {
            None => unchanged(
                s,
                "phase62 v2 continuity/external probe skipped for target "@ + t + ": no stressed subject"@,
            ),
            Some(x) => match best(Selector::Anchor, s, Seq::empty()) {
                None => unchanged(
                    s,
                    "phase62 v2 continuity/external probe skipped for target "@ + t + ": no anchor subject"@,
                ),
                Some(a) => {
                    let first = cviews(s).push(
                        assertion_view(x, "phase62/v2_region_cohesion_stabilizer_probe"@, sat_add(config.bridge_weight, 1)),
                    );
                    let two = generation_cap(config, 2) >= 2;
                    (
                        if two {
                            first.push(
                                link_view(x, "phase62/v2_external_change_dampening_probe"@, a, config.bridge_weight as int),
                            )
                        } else {
                            first
                        },
                        true,
                        if two {
                            2
                        } else {
                            1
                        },
                        "phase62 v2 continuity/external probe "@ + x + " -> "@ + a + " for target "@ + t,
                    )
                },
            },
        }
    }
}

/// The lower-cased target names the load-shift regrasp family.
pub open spec fn plateau_signature(t: Seq<char>) -> bool {
    let l = ascii_lower(t);
    has_sub(l, "blind"@) && has_sub(l, "regrasp"@) && has_sub(l, "load"@) && has_sub(l, "shift"@)
}

/// A lurch/shear target under heavy contradiction pressure.
pub open spec fn hard_contradiction(s: Seq<SemanticConstraint>, t: Seq<char>) -> bool {
    let l = ascii_lower(t);
    has_sub(l, "lurch"@) && has_sub(l, "shear"@) && total_sum(s, Metric::ContradictionPressure) >= 120
}

/// A lurch/shear recovery target under heavy contradiction and support
/// pressure.
pub open spec fn v3_signature(s: Seq<SemanticConstraint>, t: Seq<char>) -> bool {
    let l = ascii_lower(t);
    &&& has_sub(l, "lurch"@)
    &&& has_sub(l, "shear"@)
    &&& has_suffix(l, "_recovery"@)
    &&& total_sum(s, Metric::ContradictionPressure) >= 120
    &&& total_sum(s, Metric::SupportBinding) >= 80
}

/// The plateau probe: for the load-shift family without hard contradiction,
/// the mixed-continuity subject gets a continuity lift and, where allowed, a
/// reinforcement link to the anchor.
pub open spec fn plateau_probe(s: Seq<SemanticConstraint>, config: Phase62StructuralConfig, t: Seq<char>) -> ProbeView {
    if !plateau_signature(t) {
        unchanged(s, "phase62 v2 plateau probe skipped for target "@ + t + ": not 04-class plateau signature"@)
    } else if hard_contradiction(s, t) {
        unchanged(s, "phase62 v2 plateau probe skipped for target "@ + t + ": hard contradiction signature"@)
    } else if any_predicate(s, "phase62/v2_plateau_continuity_lift_probe"@) || any_predicate(
        s,
        "phase62/v2_plateau_anchor_reinforcement_probe"@,
    ) {
        unchanged(s, "phase62 v2 plateau probe already present for target "@ + t)
    } else {
        match best(Selector::Plateau, s, Seq::empty()) {
            None => unchanged(s, "phase62 v2 plateau probe skipped for target "@ + t + ": no plateau subject"@),
            Some(x) => match best(Selector::Anchor, s, Seq::empty()) {
                None => unchanged(s, "phase62 v2 plateau probe skipped for target "@ + t + ": no anchor subject"@),
                Some(a) => {
                    let first = cviews(s).push(
                        assertion_view(x, "phase62/v2_plateau_continuity_lift_probe"@, sat_add(config.bridge_weight, 2)),
                    );
                    let two = generation_cap(config, 2) >= 2;
                    (
                        if two {
                            first.push(
                                link_view(
                                    x,
                                    "phase62/v2_plateau_anchor_reinforcement_probe"@,
                                    a,
                                    sat_add(config.bridge_weight, 1),
                                ),
                            )
                        } else {
                            first
                        },
                        true,
                        if two {
                            2
                        } else {
                            1
                        },
                        "phase62 v2 plateau probe "@ + x + " -> "@ + a + " for target "@ + t,
                    )
                },
            },
        }
    }
}

/// The contradiction-relief probe: for lurch/shear recoveries, the most
/// contradiction-stressed subject gets relief and, where allowed, a
/// rebinding link to the best other anchor.
pub open spec fn relief_probe(s: Seq<SemanticConstraint>, config: Phase62StructuralConfig, t: Seq<char>) -> ProbeView {
    if !v3_signature(s, t) {
        unchanged(
            s,
            "phase62 v3 contradiction probe skipped for target "@ + t
                + ": not contradiction-dominated recovery signature"@,
        )
    } else if any_predicate(s, "phase62/v3_contradiction_relief_probe"@) || any_predicate(
        s,
        "phase62/v3_continuity_rebinding_probe"@,
    ) {
        unchanged(s, "phase62 v3 contradiction probe already present for target "@ + t)
    } else {
        match best(Selector::Dominated, s, Seq::empty()) {
            None => unchanged(
                s,
                "phase62 v3 contradiction probe skipped for target "@ + t + ": no contradiction-dominated subject"@,
            ),
            Some(x) => match best(Selector::AnchorExcluding, s, x) {
                None => unchanged(s, "phase62 v3 contradiction probe skipped for target "@ + t + ": no anchor subject"@),
                Some(a) => {
                    let first = cviews(s).push(
                        assertion_view(x, "phase62/v3_contradiction_relief_probe"@, sat_add(config.bridge_weight, 2)),
                    );
                    let two = generation_cap(config, 2) >= 2;
                    (
                        if two {
                            first.push(
                                link_view(x, "phase62/v3_continuity_rebinding_probe"@, a, sat_add(config.bridge_weight, 1)),
                            )
                        } else {
                            first
                        },
                        true,
                        if two {
                            2
                        } else {
                            1
                        },
                        "phase62 v3 contradiction probe "@ + x + " -> "@ + a + " for target "@ + t,
                    )
                },
            },
        }
    }
}


/// Continuity change over the pre-pass.
pub open spec fn continuity_change(rt: Phase62RuntimeSummary) -> int {
    rt.continuity_after_pre - rt.continuity_before
}

/// Region growth over the pre-pass, each count taken as `isize` as the
/// runtime does.
pub open spec fn region_growth(rt: Phase62RuntimeSummary) -> int {
    (rt.regions_after_pre as isize) - (rt.regions_before as isize)
}

/// The runtime deltas fit their machine types.
pub open spec fn runtime_fits(rt: Phase62RuntimeSummary) -> bool {
    &&& i64::MIN <= continuity_change(rt) <= i64::MAX
    &&& isize::MIN <= region_growth(rt) <= isize::MAX
}

/// The closure regime: none without heavy contradiction and support
/// pressure; a closure deficit when continuity and regions stall low while
/// external change does not fall; otherwise closure ready.
pub open spec fn v3b_branch(rt: Phase62RuntimeSummary, cp: int, sp: int) -> Option<Phase62V3Branch> {
    if cp < 120 || sp < 80 {
        None
    } else if rt.continuity_after_pre <= 197 && rt.regions_after_pre <= 59 && region_growth(rt) <= 0
        && rt.external_after_pre >= rt.external_before {
        Some(Phase62V3Branch::ClosureDeficitClosureRepair)
    } else {
        Some(Phase62V3Branch::ClosureReadyContradictionRelief)
    }
}

pub open spec fn span(a: Seq<char>, b: Seq<char>) -> Seq<char> {
    a + "=>"@ + b
}

pub open spec fn ready_note(x: Seq<char>, a: Seq<char>, rt: Phase62RuntimeSummary) -> Seq<char> {
    "branch=closure_ready subject="@ + x + " anchor="@ + a + " continuity="@ + span(
        dec_int(rt.continuity_before as int),
        dec_int(rt.continuity_after_pre as int),
    ) + " regions="@ + span(dec_nat(rt.regions_before as nat), dec_nat(rt.regions_after_pre as nat))
        + " anchors="@ + span(dec_nat(rt.anchors_before as nat), dec_nat(rt.anchors_after_pre as nat))
        + " external="@ + span(dec_int(rt.external_before as int), dec_int(rt.external_after_pre as int))
}

pub open spec fn deficit_note(x: Seq<char>, r: Seq<char>, rt: Phase62RuntimeSummary) -> Seq<char> {
    "branch=closure_deficit subject="@ + x + " region="@ + r + " continuity="@ + span(
        dec_int(rt.continuity_before as int),
        dec_int(rt.continuity_after_pre as int),
    ) + " delta="@ + dec_int(continuity_change(rt)) + " regions="@ + span(
        dec_nat(rt.regions_before as nat),
        dec_nat(rt.regions_after_pre as nat),
    ) + " growth="@ + dec_int(region_growth(rt)) + " anchors="@ + span(
        dec_nat(rt.anchors_before as nat),
        dec_nat(rt.anchors_after_pre as nat),
    ) + " external="@ + span(dec_int(rt.external_before as int), dec_int(rt.external_after_pre as int))
}

pub open spec fn v3b_skip(s: Seq<SemanticConstraint>, t: Seq<char>, why: Seq<char>, branch: Seq<char>) -> (ProbeView, Seq<char>) {
    (unchanged(s, "phase62 v3b contradiction/closure probe skipped for target "@ + t + ": "@ + why), branch)
}

/// The contradiction/closure probe: with enough pressure and a runtime
/// summary, relief for the stressed subject of the regime, plus a
/// continuity rebinding to an anchor (closure ready) or a region repair link
/// to the most stable subject (closure deficit). The second part is the
/// branch telemetry value.
pub open spec fn v3b_probe(
    s: Seq<SemanticConstraint>,
    config: Phase62StructuralConfig,
    t: Seq<char>,
    runtime: Option<Phase62RuntimeSummary>,
) -> (ProbeView, Seq<char>) {
    let cp = total_sum(s, Metric::ContradictionPressure);
    let sp = total_sum(s, Metric::SupportBinding);
    if any_predicate(s, "phase62/v3_contradiction_relief_probe"@) || any_predicate(
        s,
        "phase62/v3_continuity_rebinding_probe"@,
    ) || any_predicate(s, "phase62/v3b_closure_region_repair_probe"@) {
        (
            unchanged(s, "phase62 v3b contradiction/closure probe already present for target "@ + t),
            "skipped/idempotent"@,
        )
    } else if cp < 120 || sp < 80 {
        v3b_skip(s, t, "insufficient contradiction/support pressure"@, "skipped/insufficient_pressure"@)
    } else {
        match runtime {
            None => v3b_skip(s, t, "missing runtime summary"@, "skipped/missing_runtime_summary"@),
            Some(rt) => match v3b_branch(rt, cp, sp) {
                None => v3b_skip(s, t, "no closure regime match"@, "skipped/no_regime_match"@),
                Some(branch) => {
                    let ready = branch == Phase62V3Branch::ClosureReadyContradictionRelief;
                    let stressed = if ready {
                        best(Selector::Dominated, s, Seq::empty())
                    } else {
                        best(Selector::Deficit, s, Seq::empty())
                    };
                    match stressed {
                        None => if ready {
                            v3b_skip(s, t, "no contradiction-dominated subject"@, "skipped/no_contradiction_subject"@)
                        } else {
                            v3b_skip(s, t, "no closure-deficit subject"@, "skipped/no_closure_deficit_subject"@)
                        },
                        Some(x) => {
                            let partner = if ready {
                                best(Selector::AnchorExcluding, s, x)
                            } else {
                                best(Selector::StableRegion, s, x)
                            };
                            match partner {
                                None => if ready {
                                    v3b_skip(s, t, "no anchor subject"@, "skipped/no_anchor_subject"@)
                                } else {
                                    v3b_skip(s, t, "no stable region subject"@, "skipped/no_stable_region_subject"@)
                                },
                                Some(a) => {
                                    let first = cviews(s).push(
                                        assertion_view(
                                            x,
                                            "phase62/v3_contradiction_relief_probe"@,
                                            sat_add(config.bridge_weight, 2),
                                        ),
                                    );
                                    let two = generation_cap(config, 2) >= 2;
                                    let second = if ready {
                                        link_view(
                                            x,
                                            "phase62/v3_continuity_rebinding_probe"@,
                                            a,
                                            sat_add(config.bridge_weight, 1),
                                        )
                                    } else {
                                        link_view(
                                            x,
                                            "phase62/v3b_closure_region_repair_probe"@,
                                            a,
                                            sat_add(config.bridge_weight, 2),
                                        )
                                    };
                                    let branch_note = if ready {
                                        ready_note(x, a, rt)
                                    } else {
                                        deficit_note(x, a, rt)
                                    };
                                    (
                                        (
                                            if two {
                                                first.push(second)
                                            } else {
                                                first
                                            },
                                            true,
                                            if two {
                                                2
                                            } else {
                                                1
                                            },
                                            "phase62 v3b contradiction/closure probe "@ + branch_note + " for target "@ + t,
                                        ),
                                        if ready {
                                            "closure_ready"@
                                        } else {
                                            "closure_deficit"@
                                        },
                                    )
                                },
                            }
                        },
                    }
                },
            },
        }
    }
}

proof fn lemma_view_has_predicate(s: Seq<SemanticConstraint>, k: int, p: Seq<char>)
    requires
        0 <= k < s.len(),
        cviews(s)[k].1 == p,
    ensures
        any_predicate(s, p),
{
    assert(cviews(s)[k] == cview(s[k]));
    assert(s[k].predicate@ == p);
}

/// A probe that has added its constraints changes nothing when run again:
/// on constraints whose view is what the first run produced, the second run
/// applies nothing and returns them as they are (the closure probe then
/// reports itself skipped as idempotent).
pub proof fn lemma_probes_idempotent(
    s: Seq<SemanticConstraint>,
    s2: Seq<SemanticConstraint>,
    config: Phase62StructuralConfig,
    t: Seq<char>,
    runtime: Option<Phase62RuntimeSummary>,
)
    ensures
        recovery_bridge(s, config, t).1 && cviews(s2) == recovery_bridge(s, config, t).0 ==> {
            &&& recovery_bridge(s2, config, t).0 == cviews(s2)
            &&& !recovery_bridge(s2, config, t).1
        },
        external_probe(s, config, t).1 && cviews(s2) == external_probe(s, config, t).0 ==> {
            &&& external_probe(s2, config, t).0 == cviews(s2)
            &&& !external_probe(s2, config, t).1
        },
        plateau_probe(s, config, t).1 && cviews(s2) == plateau_probe(s, config, t).0 ==> {
            &&& plateau_probe(s2, config, t).0 == cviews(s2)
            &&& !plateau_probe(s2, config, t).1
        },
        relief_probe(s, config, t).1 && cviews(s2) == relief_probe(s, config, t).0 ==> {
            &&& relief_probe(s2, config, t).0 == cviews(s2)
            &&& !relief_probe(s2, config, t).1
        },
        v3b_probe(s, config, t, runtime).0.1 && cviews(s2) == v3b_probe(s, config, t, runtime).0.0 ==> {
            &&& v3b_probe(s2, config, t, runtime).0.0 == cviews(s2)
            &&& !v3b_probe(s2, config, t, runtime).0.1
            &&& v3b_probe(s2, config, t, runtime).1 == "skipped/idempotent"@
        },
{
    let k = s.len() as int;
    assert(cviews(s).len() == s.len());
    assert(cviews(s2).len() == s2.len());
    if recovery_bridge(s, config, t).1 && cviews(s2) == recovery_bridge(s, config, t).0 {
        lemma_view_has_predicate(s2, k, "phase62/recovery_anchor_region_bridge"@);
    }
    if external_probe(s, config, t).1 && cviews(s2) == external_probe(s, config, t).0 {
        lemma_view_has_predicate(s2, k, "phase62/v2_region_cohesion_stabilizer_probe"@);
    }
    if plateau_probe(s, config, t).1 && cviews(s2) == plateau_probe(s, config, t).0 {
        lemma_view_has_predicate(s2, k, "phase62/v2_plateau_continuity_lift_probe"@);
    }
    if relief_probe(s, config, t).1 && cviews(s2) == relief_probe(s, config, t).0 {
        lemma_view_has_predicate(s2, k, "phase62/v3_contradiction_relief_probe"@);
    }
    if v3b_probe(s, config, t, runtime).0.1 && cviews(s2) == v3b_probe(s, config, t, runtime).0.0 {
        lemma_view_has_predicate(s2, k, "phase62/v3_contradiction_relief_probe"@);
    }
}

/// The distinct subjects in text order.
pub open spec fn sorted_subjects(s: Seq<SemanticConstraint>) -> Seq<Seq<char>> {
    choose|v: Seq<Seq<char>>| strictly_sorted_texts(v) && v.to_set() == subjects_of(s)
}

/// One candidate assertion for each of the first subjects (at least one
/// and at most the configured number), with a fixed note.
pub open spec fn follow_on_probe(
    s: Seq<SemanticConstraint>,
    config: Phase62StructuralConfig,
    predicate: Seq<char>,
    note: Seq<char>,
) -> ProbeView {
    let subs = sorted_subjects(s);
    let limit = if config.max_bridge_constraints_per_subject < 1 {
        1
    } else {
        config.max_bridge_constraints_per_subject as int
    };
    let k = if subs.len() < limit {
        subs.len() as int
    } else {
        limit
    };
    (
        cviews(s) + Seq::new(k as nat, |i: int| assertion_view(subs[i], predicate, config.bridge_weight as int)),
        true,
        k,
        note,
    )
}


pub open spec fn opt_text(o: Option<String>) -> Option<Seq<char>> {
    match o {
        Some(x) => Some(x@),
        None => None,
    }
}

/// The name an experiment runs under when no target novelty is set.
pub open spec fn default_target(kind: Phase62ExperimentKind) -> Seq<char> {
    match kind {
        Phase62ExperimentKind::AnchorClosureSpineV1 => Seq::empty(),
        Phase62ExperimentKind::RegionMergeSplitStabilizationV1 => "phase62_region_merge_split_stabilization"@,
        Phase62ExperimentKind::ManifoldDriftSuppressionV1 => "phase62_manifold_drift_suppression"@,
        Phase62ExperimentKind::ContradictionReliefV1 => "phase62_contradiction_relief"@,
        Phase62ExperimentKind::ContradictionClosureRegimeV2 => "phase62_contradiction_closure_regime"@,
        Phase62ExperimentKind::TopologyGuidedContradictionRepairV3 => "phase63_topology_guided_contradiction_repair"@,
        Phase62ExperimentKind::ContinuityRebaseTelemetryV6 => "phase66_continuity_rebase_telemetry"@,
    }
}

/// The target an experiment runs for: the trimmed target novelty, or the
/// experiment's default name.
pub open spec fn effective_target(kind: Phase62ExperimentKind, target: Option<Seq<char>>) -> Seq<char> {
    match target {
        Some(raw) => trim_ws(raw),
        None => default_target(kind),
    }
}

/// An outcome as plain values.
pub type OutcomeView = (ProbeView, Seq<Assignment>, Option<Seq<TView>>);

pub open spec fn outcome_view(o: Phase62Outcome) -> OutcomeView {
    (probe_view((o.constraints, o.report)), aviews(o.assignments@), plan_views(o.canonical_plan))
}

/// One experiment run for target `t`.
pub open spec fn run_kind(
    s: Seq<SemanticConstraint>,
    config: Phase62StructuralConfig,
    t: Seq<char>,
    with_target: bool,
    env: Phase62Environment,
) -> OutcomeView {
    let rt = env.runtime_summary;
    let none = Seq::<Assignment>::empty();
    match config.kind {
        Phase62ExperimentKind::AnchorClosureSpineV1 => if with_target {
            (recovery_bridge(s, config, t), none, None)
        } else {
            (
                follow_on_probe(
                    s,
                    config,
                    "phase62/anchor_closure_spine_candidate"@,
                    "phase62 scaffold generated deterministic structural candidates"@,
                ),
                none,
                None,
            )
        },
        Phase62ExperimentKind::RegionMergeSplitStabilizationV1 => (external_probe(s, config, t), none, None),
        Phase62ExperimentKind::ManifoldDriftSuppressionV1 => (plateau_probe(s, config, t), none, None),
        Phase62ExperimentKind::ContradictionReliefV1 => (relief_probe(s, config, t), none, None),
        Phase62ExperimentKind::ContradictionClosureRegimeV2 => {
            let v = v3b_probe(s, config, t, rt);
            (v.0, seq![("GORT_PHASE62_V3B_BRANCH"@, v.1)], None)
        },
        Phase62ExperimentKind::TopologyGuidedContradictionRepairV3 => topology_repair(
            s,
            config,
            t,
            match rt {
                Some(x) => Some(from62(x, t)),
                None => None,
            },
            opt_text(env.canonical_target),
            plan_views(env.canonical_plan),
            opt_text(env.canonical_regime),
        ),
        Phase62ExperimentKind::ContinuityRebaseTelemetryV6 => {
            let v = rebase_telemetry(
                s,
                t,
                match rt {
                    Some(x) => Some(from62(x, t)),
                    None => None,
                },
                crate::cognition::phase63_topology_repair::handoff_of(opt_text(env.escalation_handoff)),
            );
            (v.0, v.1, None)
        },
    }
}

/// The structural experiment: nothing when disabled; with a target novelty,
/// only recovery targets are probed; without one, each experiment runs
/// under its default name (the anchor spine adds spine candidates).
pub open spec fn experiment(
    s: Seq<SemanticConstraint>,
    config: Phase62StructuralConfig,
    env: Phase62Environment,
) -> OutcomeView {
    if !config.enabled {
        (unchanged(s, "phase62 scaffold disabled"@), Seq::empty(), None)
    } else {
        match opt_text(env.target_novelty) {
            Some(raw) => {
                let t = trim_ws(raw);
                if has_suffix(t, "_recovery"@) {
                    run_kind(s, config, t, true, env)
                } else {
                    (unchanged(s, "phase62 scaffold skipped for non-recovery target "@ + t), Seq::empty(), None)
                }
            },
            None => run_kind(s, config, default_target(config.kind), false, env),
        }
    }
}

/// The runtime summary fits the arithmetic of the experiment run for `t`.
pub open spec fn environment_fits(s: Seq<SemanticConstraint>, config: Phase62StructuralConfig, env: Phase62Environment) -> bool {
    let t = effective_target(config.kind, opt_text(env.target_novelty));
    match env.runtime_summary {
        None => true,
        Some(rt) => runtime_fits(rt) && repair_inputs_fit(s, rt, t) && repair_runtime_fits(from62(rt, t)),
    }
}

// ── exec helpers ─────────────────────────────────────────────────────────────

/// A field-for-field copy of the constraints.
pub fn copy_constraints(s: &[SemanticConstraint]) -> (r: Vec<SemanticConstraint>)
    ensures
        r@ == s@,
{
    let mut out: Vec<SemanticConstraint> = Vec::new();
    let mut i: usize = 0;
    while i < s.len()
        invariant
            i <= s@.len(),
            out@ == s@.subrange(0, i as int),
        decreases s@.len() - i,
    {
        out.push(s[i].duplicate());
        i = i + 1;
        assert(out@ =~= s@.subrange(0, i as int));
    }
    assert(s@.subrange(0, s@.len() as int) =~= s@);
    out
}

fn has_predicate(s: &[SemanticConstraint], p: &str) -> (r: bool)
    ensures
        r == any_predicate(s@, p@),
{
    let mut i: usize = 0;
    while i < s.len()
        invariant
            i <= s@.len(),
            forall|j: int| 0 <= j < i ==> (#[trigger] s@[j]).predicate@ != p@,
        decreases s@.len() - i,
    {
        if crate::text::same_text(&s[i].predicate, &text(p)) {
            return true;
        }
        i = i + 1;
    }
    false
}

pub fn saturating_add(a: u8, b: u8) -> (r: u8)
    ensures
        r == sat_add(a, b as int),
{
    if a as u16 + b as u16 > 255 {
        255
    } else {
        a + b
    }
}

pub fn cap(config: Phase62StructuralConfig, c: usize) -> (r: usize)
    requires
        c >= 1,
    ensures
        r == generation_cap(config, c as int),
{
    let n = config.max_bridge_constraints_per_subject;
    if n < 1 {
        1
    } else if n > c {
        c
    } else {
        n
    }
}

/// An affirmed assertion.
pub fn assertion_constraint(subject: &str, predicate: &str, weight: u8) -> (c: SemanticConstraint)
    ensures
        cview(c) == assertion_view(subject@, predicate@, weight as int),
{
    SemanticConstraint::assertion(subject, predicate, true, weight)
}

/// An affirmed link from `subject` to `object`.
pub fn link_constraint(subject: &str, predicate: &str, object: &str, weight: u8) -> (c: SemanticConstraint)
    ensures
        cview(c) == link_view(subject@, predicate@, object@, weight as int),
{
    SemanticConstraint {
        subject: text(subject),
        predicate: text(predicate),
        object: Some(text(object)),
        affirmed: true,
        kind: ConstraintKind::Link,
        weight,
    }
}

fn note_for(prefix: &str, t: &str, suffix: &str) -> (r: String)
    ensures
        r@ == prefix@ + t@ + suffix@,
{
    let mut n = text(prefix);
    push_str(&mut n, t);
    push_str(&mut n, suffix);
    n
}

fn note_target(prefix: &str, t: &str) -> (r: String)
    ensures
        r@ == prefix@ + t@,
{
    let mut n = text(prefix);
    push_str(&mut n, t);
    n
}

fn pair_note(prefix: &str, x: &str, a: &str, t: &str) -> (r: String)
    ensures
        r@ == prefix@ + x@ + " -> "@ + a@ + " for target "@ + t@,
{
    let mut n = text(prefix);
    push_str(&mut n, x);
    push_str(&mut n, " -> ");
    push_str(&mut n, a);
    push_str(&mut n, " for target ");
    push_str(&mut n, t);
    n
}

fn unchanged_result(s: &[SemanticConstraint], note: String) -> (r: (Vec<SemanticConstraint>, Phase62StructuralReport))
    ensures
        probe_view(r) == unchanged(s@, note@),
{
    (copy_constraints(s), Phase62StructuralReport { applied: false, generated_constraints: 0, note })
}

pub fn push_view(out: &mut Vec<SemanticConstraint>, c: SemanticConstraint)
    ensures
        cviews(final(out)@) == cviews(old(out)@).push(cview(c)),
{
    let ghost before = out@;
    out.push(c);
    assert(cviews(out@) =~= cviews(before).push(cview(c)));
}

// ── selectors ────────────────────────────────────────────────────────────────

/// The subject with the highest coherence (signed weight), then stability,
/// total weight and constraint count; ties go to the first subject.
pub fn select_highest_coherence_anchor(s: &[SemanticConstraint]) -> (r: Option<String>)
    requires
        s@.len() <= MAX_CONSTRAINTS,
    ensures
        match r {
            Some(x) => best(Selector::Anchor, s@, Seq::empty()) == Some(x@),
            None => best(Selector::Anchor, s@, Seq::empty()) is None,
        },
{
    proof {
        reveal_strlit("");
        assert(""@ =~= Seq::<char>::empty());
    }
    select_subject(s, Selector::Anchor, "")
}

/// As `select_highest_coherence_anchor`, among the other subjects.
pub fn select_highest_coherence_anchor_excluding(s: &[SemanticConstraint], excluded: &str) -> (r: Option<String>)
    requires
        s@.len() <= MAX_CONSTRAINTS,
    ensures
        match r {
            Some(x) => best(Selector::AnchorExcluding, s@, excluded@) == Some(x@),
            None => best(Selector::AnchorExcluding, s@, excluded@) is None,
        },
{
    select_subject(s, Selector::AnchorExcluding, excluded)
}

/// The most stable subject other than the anchor.
pub fn select_most_stable_region(s: &[SemanticConstraint], anchor: &str) -> (r: Option<String>)
    requires
        s@.len() <= MAX_CONSTRAINTS,
    ensures
        match r {
            Some(x) => best(Selector::StableRegion, s@, anchor@) == Some(x@),
            None => best(Selector::StableRegion, s@, anchor@) is None,
        },
{
    select_subject(s, Selector::StableRegion, anchor)
}

/// The subject under the most continuity/external stress.
pub fn select_continuity_external_stressed_subject(s: &[SemanticConstraint]) -> (r: Option<String>)
    requires
        s@.len() <= MAX_CONSTRAINTS,
    ensures
        match r {
            Some(x) => best(Selector::ExternalStress, s@, Seq::empty()) == Some(x@),
            None => best(Selector::ExternalStress, s@, Seq::empty()) is None,
        },
{
    proof {
        reveal_strlit("");
        assert(""@ =~= Seq::<char>::empty());
    }
    select_subject(s, Selector::ExternalStress, "")
}

/// The subject with the strongest mixed continuity evidence that is not net
/// contradictory.
pub fn select_continuity_plateau_subject(s: &[SemanticConstraint]) -> (r: Option<String>)
    requires
        s@.len() <= MAX_CONSTRAINTS,
    ensures
        match r {
            Some(x) => best(Selector::Plateau, s@, Seq::empty()) == Some(x@),
            None => best(Selector::Plateau, s@, Seq::empty()) is None,
        },
{
    proof {
        reveal_strlit("");
        assert(""@ =~= Seq::<char>::empty());
    }
    select_subject(s, Selector::Plateau, "")
}

/// The subject under the most contradiction stress.
pub fn select_contradiction_dominated_subject(s: &[SemanticConstraint]) -> (r: Option<String>)
    requires
        s@.len() <= MAX_CONSTRAINTS,
    ensures
        match r {
            Some(x) => best(Selector::Dominated, s@, Seq::empty()) == Some(x@),
            None => best(Selector::Dominated, s@, Seq::empty()) is None,
        },
{
    proof {
        reveal_strlit("");
        assert(""@ =~= Seq::<char>::empty());
    }
    select_subject(s, Selector::Dominated, "")
}

/// The subject with the largest closure deficit.
pub fn select_closure_deficit_subject(s: &[SemanticConstraint]) -> (r: Option<String>)
    requires
        s@.len() <= MAX_CONSTRAINTS,
    ensures
        match r {
            Some(x) => best(Selector::Deficit, s@, Seq::empty()) == Some(x@),
            None => best(Selector::Deficit, s@, Seq::empty()) is None,
        },
{
    proof {
        reveal_strlit("");
        assert(""@ =~= Seq::<char>::empty());
    }
    select_subject(s, Selector::Deficit, "")
}

// ── signatures ───────────────────────────────────────────────────────────────

/// The weight of the negations, support demands and risk flags.
pub fn contradiction_pressure_score(s: &[SemanticConstraint]) -> (r: i64)
    requires
        s@.len() <= MAX_CONSTRAINTS,
    ensures
        r == total_sum(s@, Metric::ContradictionPressure),
{
    total_of(s, Metric::ContradictionPressure)
}

/// The weight of the affirmed support demands.
pub fn support_binding_pressure_score(s: &[SemanticConstraint]) -> (r: i64)
    requires
        s@.len() <= MAX_CONSTRAINTS,
    ensures
        r == total_sum(s@, Metric::SupportBinding),
{
    total_of(s, Metric::SupportBinding)
}

/// Whether the target is a lurch/shear novelty under heavy contradiction
/// pressure.
pub fn target_has_hard_contradiction_signature(s: &[SemanticConstraint], target: &str) -> (r: bool)
    requires
        s@.len() <= MAX_CONSTRAINTS,
    ensures
        r == hard_contradiction(s@, target@),
{
    if !(contains_ascii_lower(target, "lurch") && contains_ascii_lower(target, "shear")) {
        return false;
    }
    contradiction_pressure_score(s) >= 120
}

/// Whether the target names the load-shift regrasp family.
pub fn target_matches_v2b_plateau_signature(target: &str) -> (r: bool)
    ensures
        r == plateau_signature(target@),
{
    contains_ascii_lower(target, "blind") && contains_ascii_lower(target, "regrasp") && contains_ascii_lower(
        target,
        "load",
    ) && contains_ascii_lower(target, "shift")
}

/// Whether the target is a lurch/shear recovery under heavy contradiction
/// and support pressure.
pub fn target_matches_v3_contradiction_signature(s: &[SemanticConstraint], target: &str) -> (r: bool)
    requires
        s@.len() <= MAX_CONSTRAINTS,
    ensures
        r == v3_signature(s@, target@),
{
    let named = contains_ascii_lower(target, "lurch") && contains_ascii_lower(target, "shear")
        && ends_with_ascii_lower(target, "_recovery");
    named && contradiction_pressure_score(s) >= 120 && support_binding_pressure_score(s) >= 80
}


/// The closure regime for a runtime summary and the pressure scores.
pub fn classify_v3b_branch(rt: Phase62RuntimeSummary, contradiction_pressure: i64, support_pressure: i64) -> (r: Option<
    Phase62V3Branch,
>)
    requires
        runtime_fits(rt),
    ensures
        r == v3b_branch(rt, contradiction_pressure as int, support_pressure as int),
{
    if contradiction_pressure < 120 || support_pressure < 80 {
        return None;
    }
    let growth = rt.regions_after_pre as isize - rt.regions_before as isize;
    if rt.continuity_after_pre <= 197 && rt.regions_after_pre <= 59 && growth <= 0 && rt.external_after_pre
        >= rt.external_before {
        Some(Phase62V3Branch::ClosureDeficitClosureRepair)
    } else {
        Some(Phase62V3Branch::ClosureReadyContradictionRelief)
    }
}

fn push_span_i64(out: &mut String, a: i64, b: i64)
    ensures
        final(out)@ == old(out)@ + span(dec_int(a as int), dec_int(b as int)),
{
    push_i64(out, a);
    push_str(out, "=>");
    push_i64(out, b);
}

fn push_span_usize(out: &mut String, a: usize, b: usize)
    ensures
        final(out)@ == old(out)@ + span(dec_nat(a as nat), dec_nat(b as nat)),
{
    push_usize(out, a);
    push_str(out, "=>");
    push_usize(out, b);
}

fn v3b_branch_note(ready: bool, x: &str, a: &str, rt: Phase62RuntimeSummary) -> (r: String)
    requires
        runtime_fits(rt),
    ensures
        r@ == if ready {
            ready_note(x@, a@, rt)
        } else {
            deficit_note(x@, a@, rt)
        },
{
    let mut n = if ready {
        text("branch=closure_ready subject=")
    } else {
        text("branch=closure_deficit subject=")
    };
    push_str(&mut n, x);
    if ready {
        push_str(&mut n, " anchor=");
    } else {
        push_str(&mut n, " region=");
    }
    push_str(&mut n, a);
    push_str(&mut n, " continuity=");
    push_span_i64(&mut n, rt.continuity_before, rt.continuity_after_pre);
    if !ready {
        push_str(&mut n, " delta=");
        push_i64(&mut n, rt.continuity_after_pre - rt.continuity_before);
    }
    push_str(&mut n, " regions=");
    push_span_usize(&mut n, rt.regions_before, rt.regions_after_pre);
    if !ready {
        push_str(&mut n, " growth=");
        let growth = rt.regions_after_pre as isize - rt.regions_before as isize;
        push_i64(&mut n, growth as i64);
    }
    push_str(&mut n, " anchors=");
    push_span_usize(&mut n, rt.anchors_before, rt.anchors_after_pre);
    push_str(&mut n, " external=");
    push_span_i64(&mut n, rt.external_before, rt.external_after_pre);
    n
}

fn v3b_skipped(s: &[SemanticConstraint], t: &str, why: &str, branch: &str) -> (r: (
    Vec<SemanticConstraint>,
    Phase62StructuralReport,
    String,
))
    ensures
        (probe_view((r.0, r.1)), r.2@) == v3b_skip(s@, t@, why@, branch@),
{
    let mut note = text("phase62 v3b contradiction/closure probe skipped for target ");
    push_str(&mut note, t);
    push_str(&mut note, ": ");
    push_str(&mut note, why);
    (copy_constraints(s), Phase62StructuralReport { applied: false, generated_constraints: 0, note }, text(branch))
}

/// Contradiction relief with a closure-regime follow-up; returns the
/// constraints, the report and the branch telemetry value.
pub fn scaffold_contradiction_closure_probe_v3b(
    s: &[SemanticConstraint],
    config: Phase62StructuralConfig,
    target: &str,
    runtime: Option<Phase62RuntimeSummary>,
) -> (r: (Vec<SemanticConstraint>, Phase62StructuralReport, String))
    requires
        s@.len() <= MAX_CONSTRAINTS,
        runtime matches Some(rt) ==> runtime_fits(rt),
    ensures
        (probe_view((r.0, r.1)), r.2@) == v3b_probe(s@, config, target@, runtime),
{
    if has_predicate(s, PHASE62_V3_CONTRADICTION_RELIEF_PREDICATE) || has_predicate(
        s,
        PHASE62_V3_CONTINUITY_REBINDING_PREDICATE,
    ) || has_predicate(s, PHASE62_V3B_CLOSURE_REGION_REPAIR_PREDICATE) {
        let (out, report) = unchanged_result(
            s,
            note_target("phase62 v3b contradiction/closure probe already present for target ", target),
        );
        return (out, report, text("skipped/idempotent"));
    }
    let cp = contradiction_pressure_score(s);
    let sp = support_binding_pressure_score(s);
    if cp < 120 || sp < 80 {
        return v3b_skipped(
            s,
            target,
            "insufficient contradiction/support pressure",
            "skipped/insufficient_pressure",
        );
    }
    let rt = match runtime {
        Some(rt) => rt,
        None => {
            return v3b_skipped(s, target, "missing runtime summary", "skipped/missing_runtime_summary");
        },
    };
    let branch = match classify_v3b_branch(rt, cp, sp) {
        Some(b) => b,
        None => {
            return v3b_skipped(s, target, "no closure regime match", "skipped/no_regime_match");
        },
    };
    let ready = match branch {
        Phase62V3Branch::ClosureReadyContradictionRelief => true,
        _ => false,
    };
    let stressed = if ready {
        select_contradiction_dominated_subject(s)
    } else {
        select_closure_deficit_subject(s)
    };
    let x = match stressed {
        Some(x) => x,
        None => {
            if ready {
                return v3b_skipped(
                    s,
                    target,
                    "no contradiction-dominated subject",
                    "skipped/no_contradiction_subject",
                );
            } else {
                return v3b_skipped(s, target, "no closure-deficit subject", "skipped/no_closure_deficit_subject");
            }
        },
    };
    let partner = if ready {
        select_highest_coherence_anchor_excluding(s, x.as_str())
    } else {
        select_most_stable_region(s, x.as_str())
    };
    let a = match partner {
        Some(a) => a,
        None => {
            if ready {
                return v3b_skipped(s, target, "no anchor subject", "skipped/no_anchor_subject");
            } else {
                return v3b_skipped(s, target, "no stable region subject", "skipped/no_stable_region_subject");
            }
        },
    };
    let mut out = copy_constraints(s);
    push_view(
        &mut out,
        assertion_constraint(
            x.as_str(),
            PHASE62_V3_CONTRADICTION_RELIEF_PREDICATE,
            saturating_add(config.bridge_weight, 2),
        ),
    );
    let mut generated: usize = 1;
    if cap(config, 2) >= 2 {
        if ready {
            push_view(
                &mut out,
                link_constraint(
                    x.as_str(),
                    PHASE62_V3_CONTINUITY_REBINDING_PREDICATE,
                    a.as_str(),
                    saturating_add(config.bridge_weight, 1),
                ),
            );
        } else {
            push_view(
                &mut out,
                link_constraint(
                    x.as_str(),
                    PHASE62_V3B_CLOSURE_REGION_REPAIR_PREDICATE,
                    a.as_str(),
                    saturating_add(config.bridge_weight, 2),
                ),
            );
        }
        generated = 2;
    }
    let branch_note = v3b_branch_note(ready, x.as_str(), a.as_str(), rt);
    let mut note = text("phase62 v3b contradiction/closure probe ");
    push_str(&mut note, branch_note.as_str());
    push_str(&mut note, " for target ");
    push_str(&mut note, target);
    let telemetry = if ready {
        text("closure_ready")
    } else {
        text("closure_deficit")
    };
    (out, Phase62StructuralReport { applied: true, generated_constraints: generated, note }, telemetry)
}

/// One candidate assertion with `predicate` for each of the first subjects
/// in text order, at most the configured number (at least one).
pub fn scaffold_follow_on_candidate(
    s: &[SemanticConstraint],
    config: Phase62StructuralConfig,
    predicate: &str,
    note: &str,
) -> (r: (Vec<SemanticConstraint>, Phase62StructuralReport))
    ensures
        probe_view(r) == follow_on_probe(s@, config, predicate@, note@),
{
    let subs = distinct_subjects(s);
    let ghost sv = views(subs@);
    proof {
        let v = sorted_subjects(s@);
        assert(strictly_sorted_texts(v) && v.to_set() == subjects_of(s@));
        lemma_strictly_sorted_texts_unique(sv, v);
    }
    let limit = if config.max_bridge_constraints_per_subject < 1 {
        1
    } else {
        config.max_bridge_constraints_per_subject
    };
    let mut out = copy_constraints(s);
    let mut generated: usize = 0;
    let mut k: usize = 0;
    while k < subs.len()
        invariant
            sv == views(subs@),
            sv == sorted_subjects(s@),
            k <= subs@.len(),
            generated == k,
            generated <= limit,
            limit == (if config.max_bridge_constraints_per_subject < 1 {
                1
            } else {
                config.max_bridge_constraints_per_subject as int
            }),
            cviews(out@) == cviews(s@) + Seq::new(
                generated as nat,
                |i: int| assertion_view(sv[i], predicate@, config.bridge_weight as int),
            ),
        ensures
            generated as int == (if sv.len() < limit {
                sv.len() as int
            } else {
                limit as int
            }),
        decreases subs@.len() - k,
    {
        if generated >= limit {
            break;
        }
        let ghost before = cviews(out@);
        push_view(&mut out, assertion_constraint(subs[k].as_str(), predicate, config.bridge_weight));
        assert(cviews(out@) =~= cviews(s@) + Seq::new(
            (generated + 1) as nat,
            |i: int| assertion_view(sv[i], predicate@, config.bridge_weight as int),
        ));
        generated = generated + 1;
        k = k + 1;
    }
    (out, Phase62StructuralReport { applied: true, generated_constraints: generated, note: text(note) })
}

/// One anchor-closure-spine candidate for each of the first subjects.
pub fn scaffold_anchor_closure_spine_v1(s: &[SemanticConstraint], config: Phase62StructuralConfig) -> (r: (
    Vec<SemanticConstraint>,
    Phase62StructuralReport,
))
    ensures
        probe_view(r) == follow_on_probe(
            s@,
            config,
            "phase62/anchor_closure_spine_candidate"@,
            "phase62 scaffold generated deterministic structural candidates"@,
        ),
{
    scaffold_follow_on_candidate(
        s,
        config,
        PHASE62_ANCHOR_CLOSURE_SPINE_PREDICATE,
        "phase62 scaffold generated deterministic structural candidates",
    )
}

// ── probes ───────────────────────────────────────────────────────────────────

/// Links the highest-coherence subject to the most stable other subject,
/// unless a recovery bridge is already present.
pub fn scaffold_recovery_bridge_candidate_v1(
    s: &[SemanticConstraint],
    config: Phase62StructuralConfig,
    target: &str,
) -> (r: (Vec<SemanticConstraint>, Phase62StructuralReport))
    requires
        s@.len() <= MAX_CONSTRAINTS,
    ensures
        probe_view(r) == recovery_bridge(s@, config, target@),
{
    if has_predicate(s, PHASE62_RECOVERY_BRIDGE_PREDICATE) {
        return unchanged_result(s, note_target("phase62 recovery bridge already present for target ", target));
    }
    let anchor = match select_highest_coherence_anchor(s) {
        Some(a) => a,
        None => {
            return unchanged_result(
                s,
                note_for("phase62 recovery bridge skipped for target ", target, ": no anchor candidate"),
            );
        },
    };
    let region = match select_most_stable_region(s, anchor.as_str()) {
        Some(x) => x,
        None => {
            return unchanged_result(
                s,
                note_for("phase62 recovery bridge skipped for target ", target, ": no region candidate"),
            );
        },
    };
    let mut out = copy_constraints(s);
    push_view(
        &mut out,
        link_constraint(anchor.as_str(), PHASE62_RECOVERY_BRIDGE_PREDICATE, region.as_str(), config.bridge_weight),
    );
    let note = pair_note("phase62 recovery bridge ", anchor.as_str(), region.as_str(), target);
    (out, Phase62StructuralReport { applied: true, generated_constraints: 1, note })
}

/// Adds a cohesion stabilizer (and a dampening link) for the most stressed
/// subject, unless such probes are already present.
pub fn scaffold_continuity_external_probe_v2(
    s: &[SemanticConstraint],
    config: Phase62StructuralConfig,
    target: &str,
) -> (r: (Vec<SemanticConstraint>, Phase62StructuralReport))
    requires
        s@.len() <= MAX_CONSTRAINTS,
    ensures
        probe_view(r) == external_probe(s@, config, target@),
{
    if has_predicate(s, PHASE62_V2_REGION_COHESION_PREDICATE) || has_predicate(s, PHASE62_V2_EXTERNAL_DAMPEN_PREDICATE) {
        return unchanged_result(
            s,
            note_target("phase62 v2 continuity/external probe already present for target ", target),
        );
    }
    let stressed = match select_continuity_external_stressed_subject(s) {
        Some(x) => x,
        None => {
            return unchanged_result(
                s,
                note_for("phase62 v2 continuity/external probe skipped for target ", target, ": no stressed subject"),
            );
        },
    };
    let anchor = match select_highest_coherence_anchor(s) {
        Some(a) => a,
        None => {
            return unchanged_result(
                s,
                note_for("phase62 v2 continuity/external probe skipped for target ", target, ": no anchor subject"),
            );
        },
    };
    let mut out = copy_constraints(s);
    push_view(
        &mut out,
        assertion_constraint(
            stressed.as_str(),
            PHASE62_V2_REGION_COHESION_PREDICATE,
            saturating_add(config.bridge_weight, 1),
        ),
    );
    let mut generated: usize = 1;
    if cap(config, 2) >= 2 {
        push_view(
            &mut out,
            link_constraint(
                stressed.as_str(),
                PHASE62_V2_EXTERNAL_DAMPEN_PREDICATE,
                anchor.as_str(),
                config.bridge_weight,
            ),
        );
        generated = 2;
    }
    let note = pair_note("phase62 v2 continuity/external probe ", stressed.as_str(), anchor.as_str(), target);
    (out, Phase62StructuralReport { applied: true, generated_constraints: generated, note })
}

/// For the load-shift family: a continuity lift (and an anchor
/// reinforcement) for the mixed-continuity subject.
pub fn scaffold_continuity_plateau_probe_v2(
    s: &[SemanticConstraint],
    config: Phase62StructuralConfig,
    target: &str,
) -> (r: (Vec<SemanticConstraint>, Phase62StructuralReport))
    requires
        s@.len() <= MAX_CONSTRAINTS,
    ensures
        probe_view(r) == plateau_probe(s@, config, target@),
{
    if !target_matches_v2b_plateau_signature(target) {
        return unchanged_result(
            s,
            note_for("phase62 v2 plateau probe skipped for target ", target, ": not 04-class plateau signature"),
        );
    }
    if target_has_hard_contradiction_signature(s, target) {
        return unchanged_result(
            s,
            note_for("phase62 v2 plateau probe skipped for target ", target, ": hard contradiction signature"),
        );
    }
    if has_predicate(s, PHASE62_V2_PLATEAU_CONTINUITY_LIFT_PREDICATE) || has_predicate(
        s,
        PHASE62_V2_PLATEAU_ANCHOR_REINFORCEMENT_PREDICATE,
    ) {
        return unchanged_result(s, note_target("phase62 v2 plateau probe already present for target ", target));
    }
    let plateau = match select_continuity_plateau_subject(s) {
        Some(x) => x,
        None => {
            return unchanged_result(
                s,
                note_for("phase62 v2 plateau probe skipped for target ", target, ": no plateau subject"),
            );
        },
    };
    let anchor = match select_highest_coherence_anchor(s) {
        Some(a) => a,
        None => {
            return unchanged_result(
                s,
                note_for("phase62 v2 plateau probe skipped for target ", target, ": no anchor subject"),
            );
        },
    };
    let mut out = copy_constraints(s);
    push_view(
        &mut out,
        assertion_constraint(
            plateau.as_str(),
            PHASE62_V2_PLATEAU_CONTINUITY_LIFT_PREDICATE,
            saturating_add(config.bridge_weight, 2),
        ),
    );
    let mut generated: usize = 1;
    if cap(config, 2) >= 2 {
        push_view(
            &mut out,
            link_constraint(
                plateau.as_str(),
                PHASE62_V2_PLATEAU_ANCHOR_REINFORCEMENT_PREDICATE,
                anchor.as_str(),
                saturating_add(config.bridge_weight, 1),
            ),
        );
        generated = 2;
    }
    let note = pair_note("phase62 v2 plateau probe ", plateau.as_str(), anchor.as_str(), target);
    (out, Phase62StructuralReport { applied: true, generated_constraints: generated, note })
}

/// For lurch/shear recoveries: contradiction relief (and a continuity
/// rebinding) for the most contradiction-stressed subject.
pub fn scaffold_contradiction_relief_probe_v3(
    s: &[SemanticConstraint],
    config: Phase62StructuralConfig,
    target: &str,
) -> (r: (Vec<SemanticConstraint>, Phase62StructuralReport))
    requires
        s@.len() <= MAX_CONSTRAINTS,
    ensures
        probe_view(r) == relief_probe(s@, config, target@),
{
    if !target_matches_v3_contradiction_signature(s, target) {
        return unchanged_result(
            s,
            note_for(
                "phase62 v3 contradiction probe skipped for target ",
                target,
                ": not contradiction-dominated recovery signature",
            ),
        );
    }
    if has_predicate(s, PHASE62_V3_CONTRADICTION_RELIEF_PREDICATE) || has_predicate(
        s,
        PHASE62_V3_CONTINUITY_REBINDING_PREDICATE,
    ) {
        return unchanged_result(s, note_target("phase62 v3 contradiction probe already present for target ", target));
    }
    let stressed = match select_contradiction_dominated_subject(s) {
        Some(x) => x,
        None => {
            return unchanged_result(
                s,
                note_for(
                    "phase62 v3 contradiction probe skipped for target ",
                    target,
                    ": no contradiction-dominated subject",
                ),
            );
        },
    };
    let anchor = match select_highest_coherence_anchor_excluding(s, stressed.as_str()) {
        Some(a) => a,
        None => {
            return unchanged_result(
                s,
                note_for("phase62 v3 contradiction probe skipped for target ", target, ": no anchor subject"),
            );
        },
    };
    let mut out = copy_constraints(s);
    push_view(
        &mut out,
        assertion_constraint(
            stressed.as_str(),
            PHASE62_V3_CONTRADICTION_RELIEF_PREDICATE,
            saturating_add(config.bridge_weight, 2),
        ),
    );
    let mut generated: usize = 1;
    if cap(config, 2) >= 2 {
        push_view(
            &mut out,
            link_constraint(
                stressed.as_str(),
                PHASE62_V3_CONTINUITY_REBINDING_PREDICATE,
                anchor.as_str(),
                saturating_add(config.bridge_weight, 1),
            ),
        );
        generated = 2;
    }
    let note = pair_note("phase62 v3 contradiction probe ", stressed.as_str(), anchor.as_str(), target);
    (out, Phase62StructuralReport { applied: true, generated_constraints: generated, note })
}


// ── the experiment ───────────────────────────────────────────────────────────

fn empty_assignments() -> (v: Vec<(String, String)>)
    ensures
        aviews(v@) == Seq::<Assignment>::empty(),
{
    let v: Vec<(String, String)> = Vec::new();
    assert(aviews(v@) =~= Seq::<Assignment>::empty());
    v
}

fn outcome(r: (Vec<SemanticConstraint>, Phase62StructuralReport)) -> (o: Phase62Outcome)
    ensures
        outcome_view(o) == (probe_view(r), Seq::<Assignment>::empty(), None::<Seq<TView>>),
{
    Phase62Outcome { constraints: r.0, report: r.1, assignments: empty_assignments(), canonical_plan: None }
}

fn run_experiment_kind(
    s: &[SemanticConstraint],
    config: Phase62StructuralConfig,
    t: &str,
    with_target: bool,
    env: &Phase62Environment,
) -> (o: Phase62Outcome)
    requires
        s@.len() <= MAX_CONSTRAINTS,
        env.runtime_summary matches Some(rt) ==> runtime_fits(rt) && repair_inputs_fit(s@, rt, t@)
            && repair_runtime_fits(from62(rt, t@)),
    ensures
        outcome_view(o) == run_kind(s@, config, t@, with_target, *env),
{
    match config.kind {
        Phase62ExperimentKind::AnchorClosureSpineV1 => {
            if with_target {
                outcome(scaffold_recovery_bridge_candidate_v1(s, config, t))
            } else {
                outcome(scaffold_anchor_closure_spine_v1(s, config))
            }
        },
        Phase62ExperimentKind::RegionMergeSplitStabilizationV1 => outcome(
            scaffold_continuity_external_probe_v2(s, config, t),
        ),
        Phase62ExperimentKind::ManifoldDriftSuppressionV1 => outcome(scaffold_continuity_plateau_probe_v2(s, config, t)),
        Phase62ExperimentKind::ContradictionReliefV1 => outcome(scaffold_contradiction_relief_probe_v3(s, config, t)),
        Phase62ExperimentKind::ContradictionClosureRegimeV2 => {
            let (out, report, branch) = scaffold_contradiction_closure_probe_v3b(s, config, t, env.runtime_summary);
            let v = vec![(text("GORT_PHASE62_V3B_BRANCH"), branch)];
            let ghost b = v@[0].1@;
            assert(aviews(v@) =~= seq![("GORT_PHASE62_V3B_BRANCH"@, b)]);
            Phase62Outcome { constraints: out, report, assignments: v, canonical_plan: None }
        },
        Phase62ExperimentKind::TopologyGuidedContradictionRepairV3 => {
            let (out, report, assignments, plan) = scaffold_topology_guided_contradiction_repair_v63(
                s,
                config,
                t,
                env.runtime_summary,
                &env.canonical_target,
                &env.canonical_plan,
                &env.canonical_regime,
            );
            Phase62Outcome { constraints: out, report, assignments, canonical_plan: plan }
        },
        Phase62ExperimentKind::ContinuityRebaseTelemetryV6 => {
            let (out, report, assignments) = scaffold_continuity_rebase_telemetry_v66(
                s,
                t,
                env.runtime_summary,
                &env.escalation_handoff,
            );
            Phase62Outcome { constraints: out, report, assignments, canonical_plan: None }
        },
    }
}

fn default_target_text(kind: Phase62ExperimentKind) -> (t: &'static str)
    ensures
        t@ == default_target(kind),
{
    proof {
        reveal_strlit("");
        assert(""@ =~= Seq::<char>::empty());
    }
    match kind {
        Phase62ExperimentKind::AnchorClosureSpineV1 => "",
        Phase62ExperimentKind::RegionMergeSplitStabilizationV1 => "phase62_region_merge_split_stabilization",
        Phase62ExperimentKind::ManifoldDriftSuppressionV1 => "phase62_manifold_drift_suppression",
        Phase62ExperimentKind::ContradictionReliefV1 => "phase62_contradiction_relief",
        Phase62ExperimentKind::ContradictionClosureRegimeV2 => "phase62_contradiction_closure_regime",
        Phase62ExperimentKind::TopologyGuidedContradictionRepairV3 => "phase63_topology_guided_contradiction_repair",
        Phase62ExperimentKind::ContinuityRebaseTelemetryV6 => "phase66_continuity_rebase_telemetry",
    }
}

/// Whether the structural experiment stays within its machine types on
/// these inputs: at most `MAX_CONSTRAINTS` constraints and, where there is a
/// runtime summary, deltas, ratios, region pressures and candidate ranks
/// that fit their integer types.
pub fn phase62_environment_fits(
    s: &[SemanticConstraint],
    config: Phase62StructuralConfig,
    env: &Phase62Environment,
) -> (b: bool)
    ensures
        b == (s@.len() <= MAX_CONSTRAINTS && environment_fits(s@, config, *env)),
{
    if s.len() as u64 > MAX_CONSTRAINTS {
        return false;
    }
    match env.runtime_summary {
        None => true,
        Some(rt) => {
            let cc = rt.continuity_after_pre as i128 - rt.continuity_before as i128;
            let rg = (rt.regions_after_pre as isize) as i128 - (rt.regions_before as isize) as i128;
            if cc < i64::MIN as i128 || cc > i64::MAX as i128 || rg < isize::MIN as i128 || rg > isize::MAX as i128 {
                return false;
            }
            let t = match &env.target_novelty {
                Some(raw) => trim_text(raw.as_str()),
                None => default_target_text(config.kind),
            };
            let r = phase63_runtime_summary_from_phase62(rt, t);
            if !phase63_runtime_fits(&r) {
                return false;
            }
            let regime = classify_phase63_regime(&r);
            phase63_ranks_fit(s, &r, regime.as_str())
        },
    }
}

/// Runs the configured structural experiment against what was read from
/// the environment.
pub fn apply_phase62_structural_experiment(
    s: &[SemanticConstraint],
    config: Phase62StructuralConfig,
    env: &Phase62Environment,
) -> (o: Phase62Outcome)
    requires
        s@.len() <= MAX_CONSTRAINTS,
        config.enabled ==> environment_fits(s@, config, *env),
    ensures
        outcome_view(o) == experiment(s@, config, *env),
{
    if !config.enabled {
        return outcome(unchanged_result(s, text("phase62 scaffold disabled")));
    }
    match &env.target_novelty {
        Some(raw) => {
            let t = trim_text(raw.as_str());
            if ends_with_text(t, "_recovery") {
                run_experiment_kind(s, config, t, true, env)
            } else {
                outcome(unchanged_result(s, note_target("phase62 scaffold skipped for non-recovery target ", t)))
            }
        },
        None => run_experiment_kind(s, config, default_target_text(config.kind), false, env),
    }
}

} // verus!
