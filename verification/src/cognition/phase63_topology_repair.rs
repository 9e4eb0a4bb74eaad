//! Topology-guided contradiction repair: classifies the closure regime of a
//! runtime summary, ranks repair targets per subject, applies a repair plan
//! to a constraint set, and derives the continuity-rebase telemetry.
use vstd::prelude::*;
use crate::cognition::constraint::SemanticConstraint;
use crate::cognition::phase61_structural_recovery::trunc_div;
use crate::cognition::constraint::ConstraintKind;
use crate::cognition::phase62_structural_experiment::{
    probe_view, unchanged, ProbeView, Phase62StructuralReport, assertion_constraint, assertion_view, cap, copy_constraints, cview, cviews, generation_cap,
    link_constraint, link_view, push_view, sat_add, saturating_add, select_highest_coherence_anchor,
    select_highest_coherence_anchor_excluding, sorted_subjects, CView, Phase62RuntimeSummary,
    Phase62StructuralConfig,
};
use crate::cognition::phase62_subject_selection::{best, Selector};
use crate::cognition::phase62_subject_selection::{
    distinct_subjects, lemma_subject_sum_bounds, subject_sum, subject_total, subjects_of, Metric,
    MAX_CONSTRAINTS,
};
use crate::text::{ascii_lower, bool_text, dec_int, dec_nat, equals_ascii_lower, join, push_bool, push_i64, push_str, push_usize, trim_text, trim_ws, contains_text, has_sub, lemma_strictly_sorted_texts_unique, lemma_text_lt_irreflexive, less_than,
    same_text, strictly_sorted_texts, text, text_lt, views};

verus! {

/// The kind of a repair plan.
#[derive(Debug, Clone, Copy, PartialEq, Eq, Structural)]
pub enum Phase63Kind {
    TopologyGuidedContradictionRepair,
}

/// The topological role of a region.
#[derive(Debug, Clone, Copy, PartialEq, Eq, Structural)]
pub enum Phase63RegionRole {
    Boundary,
    Bridge,
    Core,
}

/// A repair applied to a region.
#[derive(Debug, Clone, Copy, PartialEq, Eq, Structural)]
pub enum Phase63RepairOperator {
    BoundaryDampen,
    BridgeRebind,
    CoreStabilize,
    ClosureBridge,
    ContradictionRedirect,
    AnchorReweight,
}

/// A runtime summary for one holdout.
#[derive(Debug, Clone, PartialEq, Eq)]
pub struct Phase63RuntimeSummary {
    pub holdout_id: String,
    pub continuity_pre: i32,
    pub continuity_post: i32,
    pub external_pre: i32,
    pub external_post: i32,
    pub regions_pre: usize,
    pub regions_post: usize,
    pub anchors_pre: usize,
    pub anchors_post: usize,
    pub support_signal: i32,
    pub contradiction_signal: i32,
}

/// One region to repair and how.
#[derive(Debug, Clone, PartialEq, Eq)]
pub struct Phase63RepairTarget {
    pub region_id: String,
    pub role: Phase63RegionRole,
    pub contradiction_pressure: i32,
    pub closure_deficit_index: i32,
    pub operator: Phase63RepairOperator,
}

/// The targets of a repair, in application order.
#[derive(Debug, Clone, PartialEq, Eq)]
pub struct Phase63RepairPlan {
    pub kind: Phase63Kind,
    pub targets: Vec<Phase63RepairTarget>,
}

/// What a repair run reports.
#[derive(Debug, Clone, PartialEq, Eq)]
pub struct Phase63Telemetry {
    pub holdout_id: String,
    pub selected_targets: usize,
    pub applied_targets: usize,
    pub skipped_reason: Option<String>,
    pub supervisor_intensity: i32,
    pub problematic: bool,
    pub continuity_delta: i32,
    pub external_delta: i32,
    pub region_delta: i32,
    pub anchor_delta: i32,
}

/// The continuity-rebase measurements of a holdout.
#[derive(Debug, Clone, PartialEq, Eq)]
pub struct Phase66Telemetry {
    pub holdout_id: String,
    pub continuity_pre: i32,
    pub continuity_post: i32,
    pub continuity_delta: i32,
    pub external_delta: i32,
    pub region_delta: i32,
    pub anchor_delta: i32,
    pub support_signal: i32,
    pub contradiction_signal: i32,
    pub contradiction_pressure_ratio_ppm: i32,
    pub contradiction_penalty: i32,
    pub region_reward: i32,
    pub anchor_reward: i32,
    pub continuity_rebased: i32,
    pub escalation_handoff: bool,
    pub phase67_escalation_marker: bool,
    pub short_window_baseline: i32,
    pub medium_window_baseline: i32,
    pub long_window_baseline: i32,
    pub mode: String,
}

/// The escalation hand-off marker passed on from the rebase telemetry.
#[derive(Debug, Clone, PartialEq, Eq)]
pub struct Phase67Telemetry {
    pub holdout_id: String,
    pub phase67_escalation_marker_in: bool,
    pub phase67_semantic_context: String,
    pub phase67_ready: bool,
}

/// A runtime summary as plain values.
pub struct RuntimeView {
    pub holdout_id: Seq<char>,
    pub continuity_pre: i32,
    pub continuity_post: i32,
    pub external_pre: i32,
    pub external_post: i32,
    pub regions_pre: usize,
    pub regions_post: usize,
    pub anchors_pre: usize,
    pub anchors_post: usize,
    pub support_signal: i32,
    pub contradiction_signal: i32,
}

pub open spec fn rv(r: Phase63RuntimeSummary) -> RuntimeView {
    RuntimeView {
        holdout_id: r.holdout_id@,
        continuity_pre: r.continuity_pre,
        continuity_post: r.continuity_post,
        external_pre: r.external_pre,
        external_post: r.external_post,
        regions_pre: r.regions_pre,
        regions_post: r.regions_post,
        anchors_pre: r.anchors_pre,
        anchors_post: r.anchors_post,
        support_signal: r.support_signal,
        contradiction_signal: r.contradiction_signal,
    }
}

/// The phase-63 view of a phase-62 summary for holdout `t`, each
/// measurement taken as `i32` as the runtime does.
pub open spec fn from62(rt: Phase62RuntimeSummary, t: Seq<char>) -> RuntimeView {
    RuntimeView {
        holdout_id: t,
        continuity_pre: rt.continuity_before as i32,
        continuity_post: rt.continuity_after_pre as i32,
        external_pre: rt.external_before as i32,
        external_post: rt.external_after_pre as i32,
        regions_pre: rt.regions_before,
        regions_post: rt.regions_after_pre,
        anchors_pre: rt.anchors_before,
        anchors_post: rt.anchors_after_pre,
        support_signal: rt.support_signal as i32,
        contradiction_signal: rt.contradiction_signal as i32,
    }
}

// ── runtime model ────────────────────────────────────────────────────────────

pub open spec fn fits_i32(x: int) -> bool {
    i32::MIN <= x <= i32::MAX
}

pub open spec fn continuity_delta(r: RuntimeView) -> int {
    r.continuity_post - r.continuity_pre
}

pub open spec fn external_delta(r: RuntimeView) -> int {
    r.external_post - r.external_pre
}

/// Region change, each count taken as `i32` as the runtime does.
pub open spec fn region_delta(r: RuntimeView) -> int {
    (r.regions_post as i32) - (r.regions_pre as i32)
}

pub open spec fn anchor_delta(r: RuntimeView) -> int {
    (r.anchors_post as i32) - (r.anchors_pre as i32)
}

/// Contradiction signal per support signal (at least one), in millionths.
pub open spec fn pressure_ratio_ppm(r: RuntimeView) -> int {
    trunc_div(
        r.contradiction_signal * 1_000_000,
        if r.support_signal < 1 {
            1
        } else {
            r.support_signal as int
        },
    )
}

/// The continuity rebase: penalty (4 ppm of the ratio), region reward
/// (twice the region change), anchor reward (the anchor change), and the
/// rebased continuity.
pub open spec fn rebase_terms(cd: int, ratio: int, rd: int, ad: int) -> (int, int, int, int) {
    let penalty = trunc_div(4 * ratio, 1_000_000);
    (penalty, 2 * rd, ad, cd - penalty + 2 * rd + ad)
}

pub open spec fn continuity_rebased(r: RuntimeView) -> int {
    rebase_terms(continuity_delta(r), pressure_ratio_ppm(r), region_delta(r), anchor_delta(r)).3
}

/// Every step of the delta and rebase arithmetic fits `i32`.
pub open spec fn runtime_fits(r: RuntimeView) -> bool {
    let cd = continuity_delta(r);
    let rd = region_delta(r);
    let ad = anchor_delta(r);
    let ratio = pressure_ratio_ppm(r);
    let penalty = trunc_div(4 * ratio, 1_000_000);
    &&& fits_i32(cd)
    &&& fits_i32(external_delta(r))
    &&& fits_i32(rd)
    &&& fits_i32(ad)
    &&& fits_i32(rd + ad)
    &&& fits_i32(r.contradiction_signal * 1_000_000)
    &&& fits_i32(4 * ratio)
    &&& fits_i32(2 * rd)
    &&& fits_i32(cd - penalty)
    &&& fits_i32(cd - penalty + 2 * rd)
    &&& fits_i32(cd - penalty + 2 * rd + ad)
    &&& fits_i32(r.continuity_pre + r.continuity_post)
}

pub open spec fn is_closure_deficit(regime: Seq<char>) -> bool {
    regime == "closure_deficit"@
}

/// A closure deficit unless continuity rose, external change fell and
/// regions grew.
pub open spec fn regime_of(r: RuntimeView) -> Seq<char> {
    if continuity_delta(r) <= 0 || external_delta(r) >= 0 || region_delta(r) <= 0 {
        "closure_deficit"@
    } else {
        "closure_ready"@
    }
}

/// The global closure deficit: 40 for flat or falling continuity, 30 for
/// non-falling external change, 20 for no structural growth, 10 when the
/// contradiction signal exceeds the support signal.
pub open spec fn deficit_index(r: RuntimeView) -> int {
    (if continuity_delta(r) <= 0 {
        40int
    } else {
        0
    }) + (if external_delta(r) >= 0 {
        30int
    } else {
        0
    }) + (if region_delta(r) + anchor_delta(r) <= 0 {
        20int
    } else {
        0
    }) + (if r.contradiction_signal > r.support_signal {
        10int
    } else {
        0
    })
}

/// The supervised bridge operator for a rebased continuity signal.
pub open spec fn operator_for_signal(rebased: int, regime: Seq<char>) -> Option<Phase63RepairOperator> {
    if !is_closure_deficit(regime) {
        None
    } else if rebased <= -3 {
        Some(Phase63RepairOperator::ContradictionRedirect)
    } else if rebased <= 0 {
        Some(Phase63RepairOperator::ClosureBridge)
    } else {
        None
    }
}

/// The follow-on to an operator while the signal stays flat.
pub open spec fn follow_on_for(op: Phase63RepairOperator, r: RuntimeView) -> Option<Phase63RepairOperator> {
    match op {
        Phase63RepairOperator::ClosureBridge => if continuity_rebased(r) <= 0 {
            Some(Phase63RepairOperator::AnchorReweight)
        } else {
            None
        },
        Phase63RepairOperator::ContradictionRedirect => if external_delta(r) == 0 {
            Some(Phase63RepairOperator::ClosureBridge)
        } else {
            None
        },
        Phase63RepairOperator::AnchorReweight => if region_delta(r) == 0 {
            Some(Phase63RepairOperator::ClosureBridge)
        } else {
            None
        },
        _ => None,
    }
}

pub open spec fn operator_rank(op: Phase63RepairOperator) -> int {
    match op {
        Phase63RepairOperator::BoundaryDampen => 0,
        Phase63RepairOperator::BridgeRebind => 1,
        Phase63RepairOperator::CoreStabilize => 2,
        Phase63RepairOperator::ClosureBridge => 3,
        Phase63RepairOperator::ContradictionRedirect => 4,
        Phase63RepairOperator::AnchorReweight => 5,
    }
}

/// The preference learned for walking and stacking bridge regions.
pub open spec fn learned_preference(subject: Seq<char>, role: Phase63RegionRole, cp: int, cdi: int) -> int {
    let walking = subject == "walking"@;
    let stacking = subject == "stacking"@;
    if role != Phase63RegionRole::Bridge {
        0
    } else if walking && cp >= 150 && cdi >= 118 {
        60
    } else if walking && cp >= 118 && cdi >= 109 {
        40
    } else if walking && cp >= 154 && cdi >= 88 {
        50
    } else if walking && cp >= 127 && cdi <= 101 {
        -30
    } else if stacking && cp == 115 && cdi == 78 {
        20
    } else if stacking && cp == 123 && cdi >= 110 {
        -20
    } else if walking && cp >= 127 && cdi >= 101 {
        30
    } else if walking && cp == 127 && cdi == 71 {
        -30
    } else {
        0
    }
}

/// The bias of an operator for a region's role under the regime.
pub open spec fn operator_bias(
    subject: Seq<char>,
    role: Phase63RegionRole,
    cdi: int,
    op: Phase63RepairOperator,
    lp: int,
    regime: Seq<char>,
) -> int {
    let deficit = is_closure_deficit(regime);
    let bridge = role == Phase63RegionRole::Bridge;
    if deficit && bridge && op == Phase63RepairOperator::ClosureBridge {
        if lp >= 50 || (subject == "walking"@ && cdi >= 118) {
            80
        } else if lp >= 30 {
            45
        } else {
            10
        }
    } else if deficit && bridge && op == Phase63RepairOperator::ContradictionRedirect {
        if lp >= 30 {
            55
        } else if subject == "walking"@ && cdi >= 101 {
            30
        } else {
            8
        }
    } else if deficit && bridge && op == Phase63RepairOperator::AnchorReweight {
        if lp >= 20 {
            35
        } else if subject == "stacking"@ && cdi >= 110 {
            28
        } else {
            6
        }
    } else if deficit && bridge && op == Phase63RepairOperator::BridgeRebind {
        20
    } else if deficit && bridge && op == Phase63RepairOperator::BoundaryDampen {
        5
    } else if role == Phase63RegionRole::Boundary && op == Phase63RepairOperator::BoundaryDampen {
        10
    } else if role == Phase63RegionRole::Core && op == Phase63RepairOperator::CoreStabilize {
        10
    } else {
        0
    }
}

/// A region's role: boundary when any of its predicates mentions a boundary
/// or edge, else bridge when one mentions bridging, support, rebinding or
/// stitching, else core.
pub open spec fn role_of(s: Seq<SemanticConstraint>, subject: Seq<char>) -> Phase63RegionRole {
    if subject_sum(s, subject, Metric::BoundaryMentions) > 0 {
        Phase63RegionRole::Boundary
    } else if subject_sum(s, subject, Metric::BridgeMentions) > 0 {
        Phase63RegionRole::Bridge
    } else {
        Phase63RegionRole::Core
    }
}

/// A region's contradiction pressure.
pub open spec fn region_pressure(s: Seq<SemanticConstraint>, subject: Seq<char>) -> int {
    subject_sum(s, subject, Metric::RegionPressure)
}


// ── target model ─────────────────────────────────────────────────────────────

/// A repair target as plain values: region, role, pressure, deficit index,
/// operator.
pub type TView = (Seq<char>, Phase63RegionRole, int, int, Phase63RepairOperator);

pub open spec fn tview(t: Phase63RepairTarget) -> TView {
    (t.region_id@, t.role, t.contradiction_pressure as int, t.closure_deficit_index as int, t.operator)
}

pub open spec fn tviews(ts: Seq<Phase63RepairTarget>) -> Seq<TView> {
    ts.map_values(|t: Phase63RepairTarget| tview(t))
}

/// Every region's contradiction pressure fits `i32`.
pub open spec fn pressures_fit(s: Seq<SemanticConstraint>) -> bool {
    forall|y: Seq<char>| #[trigger] subjects_of(s).contains(y) ==> region_pressure(s, y) <= i32::MAX
}

/// A region's local deficit: the global index plus a quarter of its
/// pressure.
pub open spec fn local_deficit(s: Seq<SemanticConstraint>, r: RuntimeView, y: Seq<char>) -> int {
    deficit_index(r) + region_pressure(s, y) / 4
}

/// The stubborn walking/stacking bridge signatures.
pub open spec fn forced_match(s: Seq<SemanticConstraint>, r: RuntimeView, y: Seq<char>) -> bool {
    let p = region_pressure(s, y);
    let local = local_deficit(s, r, y);
    &&& role_of(s, y) == Phase63RegionRole::Bridge
    &&& p > 0
    &&& ((y == "walking"@ && p == 127 && local >= 101) || (y == "stacking"@ && p == 123 && local >= 110))
}

/// The first of `subs[from..]` that matches a stubborn signature.
pub open spec fn first_forced(subs: Seq<Seq<char>>, s: Seq<SemanticConstraint>, r: RuntimeView, from: int) -> Option<
    Seq<char>,
>
    decreases subs.len() - from,
{
    if from >= subs.len() || from < 0 {
        None
    } else if forced_match(s, r, subs[from]) {
        Some(subs[from])
    } else {
        first_forced(subs, s, r, from + 1)
    }
}

/// Under a closure deficit, a stubborn bridge region gets a closure bridge
/// followed by an anchor reweight.
pub open spec fn forced_targets(s: Seq<SemanticConstraint>, r: RuntimeView, regime: Seq<char>) -> Option<Seq<TView>> {
    if !is_closure_deficit(regime) {
        None
    } else {
        match first_forced(sorted_subjects(s), s, r, 0) {
            None => None,
            Some(y) => {
                let p = region_pressure(s, y);
                let d = local_deficit(s, r, y);
                Some(
                    seq![
                        (y, Phase63RegionRole::Bridge, p, d, Phase63RepairOperator::ClosureBridge),
                        (y, Phase63RegionRole::Bridge, p, d, Phase63RepairOperator::AnchorReweight),
                    ],
                )
            },
        }
    }
}

/// Expansion order: region, operator rank, then higher pressure and higher
/// deficit first.
pub open spec fn target_before(a: TView, b: TView) -> bool {
    ||| text_lt(a.0, b.0)
    ||| a.0 == b.0 && operator_rank(a.4) < operator_rank(b.4)
    ||| a.0 == b.0 && operator_rank(a.4) == operator_rank(b.4) && a.2 > b.2
    ||| a.0 == b.0 && operator_rank(a.4) == operator_rank(b.4) && a.2 == b.2 && a.3 > b.3
}

/// Region order alone.
pub open spec fn region_before(a: TView, b: TView) -> bool {
    text_lt(a.0, b.0)
}

/// `x` inserted before the first element it precedes (by region only, or by
/// the full expansion order).
pub open spec fn insert_target(s: Seq<TView>, x: TView, full: bool) -> Seq<TView>
    decreases s.len(),
{
    if s.len() == 0 {
        seq![x]
    } else if (if full {
        target_before(x, s[0])
    } else {
        region_before(x, s[0])
    }) {
        seq![x] + s
    } else {
        seq![s[0]] + insert_target(s.drop_first(), x, full)
    }
}

/// A stable sort of targets.
pub open spec fn sort_targets(s: Seq<TView>, full: bool) -> Seq<TView>
    decreases s.len(),
{
    if s.len() == 0 {
        Seq::empty()
    } else {
        insert_target(sort_targets(s.drop_last(), full), s.last(), full)
    }
}

/// The targets after adding the follow-ons of the first `k` base targets.
pub open spec fn with_follow_ons(base: Seq<TView>, r: RuntimeView, k: int) -> Seq<TView>
    decreases k,
{
    if k <= 0 {
        base
    } else {
        let acc = with_follow_ons(base, r, k - 1);
        let t = base[k - 1];
        match follow_on_for(t.4, r) {
            None => acc,
            Some(f) => if exists|j: int| 0 <= j < acc.len() && (#[trigger] acc[j]).0 == t.0 && acc[j].4 == f {
                acc
            } else {
                acc.push((t.0, t.1, t.2, t.3, f))
            },
        }
    }
}

/// Under a closure deficit with a non-positive rebased signal, each target
/// gets its flat-signal follow-on (once per region and operator), and the
/// whole list is put in expansion order.
pub open spec fn expanded(targets: Seq<TView>, r: RuntimeView, regime: Seq<char>) -> Seq<TView> {
    if !is_closure_deficit(regime) || continuity_rebased(r) > 0 {
        targets
    } else {
        sort_targets(with_follow_ons(targets, r, targets.len() as int), true)
    }
}



/// The operators a region of this role may receive.
pub open spec fn candidate_ops(
    role: Phase63RegionRole,
    regime: Seq<char>,
    supervised: Option<Phase63RepairOperator>,
) -> Seq<Phase63RepairOperator> {
    match role {
        Phase63RegionRole::Boundary => seq![Phase63RepairOperator::BoundaryDampen],
        Phase63RegionRole::Bridge => seq![Phase63RepairOperator::BoundaryDampen, Phase63RepairOperator::BridgeRebind]
            + if is_closure_deficit(regime) {
            match supervised {
                Some(o) => seq![o],
                None => seq![
                    Phase63RepairOperator::ClosureBridge,
                    Phase63RepairOperator::ContradictionRedirect,
                    Phase63RepairOperator::AnchorReweight,
                ],
            }
        } else {
            Seq::empty()
        },
        Phase63RegionRole::Core => seq![Phase63RepairOperator::CoreStabilize],
    }
}

/// A ranked candidate: its rank and its target.
pub type Entry = (int, TView);

pub open spec fn ops_of(s: Seq<SemanticConstraint>, r: RuntimeView, regime: Seq<char>, y: Seq<char>) -> Seq<
    Phase63RepairOperator,
> {
    candidate_ops(role_of(s, y), regime, operator_for_signal(continuity_rebased(r), regime))
}

/// The rank of a candidate: pressure, local deficit, learned preference and
/// operator bias.
pub open spec fn entry_of(
    s: Seq<SemanticConstraint>,
    r: RuntimeView,
    regime: Seq<char>,
    y: Seq<char>,
    op: Phase63RepairOperator,
) -> Entry {
    let p = region_pressure(s, y);
    let role = role_of(s, y);
    let d = local_deficit(s, r, y);
    let lp = learned_preference(y, role, p, d);
    (p + d + lp + operator_bias(y, role, d, op, lp, regime), (y, role, p, d, op))
}

pub open spec fn subject_entries(s: Seq<SemanticConstraint>, r: RuntimeView, regime: Seq<char>, y: Seq<char>) -> Seq<
    Entry,
> {
    ops_of(s, r, regime, y).map_values(|op: Phase63RepairOperator| entry_of(s, r, regime, y, op))
}

/// The candidates of the listed regions, region by region.
pub open spec fn all_entries(
    subs: Seq<Seq<char>>,
    s: Seq<SemanticConstraint>,
    r: RuntimeView,
    regime: Seq<char>,
) -> Seq<Entry>
    decreases subs.len(),
{
    if subs.len() == 0 {
        Seq::empty()
    } else {
        all_entries(subs.drop_last(), s, r, regime) + subject_entries(s, r, regime, subs.last())
    }
}

/// The candidates with positive rank and positive pressure.
pub open spec fn positive(es: Seq<Entry>) -> Seq<Entry>
    decreases es.len(),
{
    if es.len() == 0 {
        Seq::empty()
    } else if es.last().0 > 0 && es.last().1.2 > 0 {
        positive(es.drop_last()).push(es.last())
    } else {
        positive(es.drop_last())
    }
}

/// Higher rank first, then region order.
pub open spec fn entry_before(a: Entry, b: Entry) -> bool {
    a.0 > b.0 || (a.0 == b.0 && text_lt(a.1.0, b.1.0))
}

pub open spec fn insert_entry(s: Seq<Entry>, x: Entry) -> Seq<Entry>
    decreases s.len(),
{
    if s.len() == 0 {
        seq![x]
    } else if entry_before(x, s[0]) {
        seq![x] + s
    } else {
        seq![s[0]] + insert_entry(s.drop_first(), x)
    }
}

/// A stable sort of candidates by rank, then region.
pub open spec fn sort_entries(s: Seq<Entry>) -> Seq<Entry>
    decreases s.len(),
{
    if s.len() == 0 {
        Seq::empty()
    } else {
        insert_entry(sort_entries(s.drop_last()), s.last())
    }
}

/// The repair targets: the forced two-step where a stubborn signature
/// matches, else the two best-ranked candidates in region order; either way
/// expanded with follow-ons.
pub open spec fn selected_targets(s: Seq<SemanticConstraint>, r: RuntimeView, regime: Seq<char>) -> Seq<TView> {
    match forced_targets(s, r, regime) {
        Some(f) => expanded(f, r, regime),
        None => {
            let ranked = sort_entries(positive(all_entries(sorted_subjects(s), s, r, regime)));
            let top = ranked.take(if ranked.len() < 2 {
                ranked.len() as int
            } else {
                2
            }).map_values(|e: Entry| e.1);
            expanded(sort_targets(top, false), r, regime)
        },
    }
}

/// The rank of one candidate fits `i32` at each step of its sum.
pub open spec fn rank_fits(
    s: Seq<SemanticConstraint>,
    r: RuntimeView,
    regime: Seq<char>,
    y: Seq<char>,
    op: Phase63RepairOperator,
) -> bool {
    let p = region_pressure(s, y);
    let d = local_deficit(s, r, y);
    let role = role_of(s, y);
    let lp = learned_preference(y, role, p, d);
    &&& fits_i32(p + d)
    &&& fits_i32(p + d + lp)
    &&& fits_i32(p + d + lp + operator_bias(y, role, d, op, lp, regime))
}

/// Every candidate rank fits `i32` at each step of its sum.
pub open spec fn ranks_fit(s: Seq<SemanticConstraint>, r: RuntimeView, regime: Seq<char>) -> bool {
    forall|y: Seq<char>, op: Phase63RepairOperator|
        subjects_of(s).contains(y) ==> #[trigger] rank_fits(s, r, regime, y, op)
}


fn fits_i32_exec(x: i64) -> (b: bool)
    ensures
        b == fits_i32(x as int),
{
    -2147483648 <= x && x <= 2147483647
}

/// Whether every derived delta, the pressure ratio and every step of the
/// continuity rebase of `r` fit `i32`.
pub fn phase63_runtime_fits(r: &Phase63RuntimeSummary) -> (b: bool)
    ensures
        b == runtime_fits(rv(*r)),
{
    let cd = r.continuity_post as i64 - r.continuity_pre as i64;
    let ed = r.external_post as i64 - r.external_pre as i64;
    let rd = (r.regions_post as i32) as i64 - (r.regions_pre as i32) as i64;
    let ad = (r.anchors_post as i32) as i64 - (r.anchors_pre as i32) as i64;
    let scaled = r.contradiction_signal as i64 * 1_000_000;
    let den: i64 = if r.support_signal < 1 {
        1
    } else {
        r.support_signal as i64
    };
    proof {
        let a = scaled as int;
        let d = den as int;
        if a >= 0 {
            assert(0 <= a / d <= a) by (nonlinear_arith)
                requires
                    a >= 0,
                    d >= 1,
            ;
        } else {
            assert(0 <= (-a) / d <= -a) by (nonlinear_arith)
                requires
                    a < 0,
                    d >= 1,
            ;
        }
    }
    let ratio = scaled / den;
    let penalty = (4 * ratio) / 1_000_000;
    assert(ratio as int == trunc_div(scaled as int, den as int));
    assert(penalty as int == trunc_div(4 * ratio as int, 1_000_000));
    fits_i32_exec(cd) && fits_i32_exec(ed) && fits_i32_exec(rd) && fits_i32_exec(ad) && fits_i32_exec(rd + ad)
        && fits_i32_exec(scaled) && fits_i32_exec(4 * ratio) && fits_i32_exec(2 * rd) && fits_i32_exec(
        cd - penalty,
    ) && fits_i32_exec(cd - penalty + 2 * rd) && fits_i32_exec(cd - penalty + 2 * rd + ad) && fits_i32_exec(
        r.continuity_pre as i64 + r.continuity_post as i64,
    )
}

/// Whether the ranks of one subject fit `i32` for every operator.
fn subject_ranks_fit(
    s: &[SemanticConstraint],
    r: &Phase63RuntimeSummary,
    regime: &str,
    y: &str,
    deficit: i32,
) -> (b: bool)
    requires
        s@.len() <= MAX_CONSTRAINTS,
        deficit == deficit_index(rv(*r)),
    ensures
        b == (region_pressure(s@, y@) <= i32::MAX && forall|op: Phase63RepairOperator|
            #[trigger] rank_fits(s@, rv(*r), regime@, y@, op)),
{
    let p = subject_total(s, y, Metric::RegionPressure);
    proof {
        lemma_subject_sum_bounds(s@, y@, Metric::RegionPressure);
    }
    if p > 2147483647 {
        return false;
    }
    let d = deficit as i64 + p / 4;
    assert(0 <= deficit <= 100);
    if !fits_i32_exec(p + d) {
        assert(!rank_fits(s@, rv(*r), regime@, y@, Phase63RepairOperator::BoundaryDampen));
        return false;
    }
    let role = phase63_role_for_subject(s, y);
    let lp = phase63_learned_pattern_preference(y, role, p as i32, d as i32);
    if !fits_i32_exec(p + d + lp as i64) {
        assert(!rank_fits(s@, rv(*r), regime@, y@, Phase63RepairOperator::BoundaryDampen));
        return false;
    }
    let b1 = bias_step_fits(y, role, d, lp, regime, Phase63RepairOperator::BoundaryDampen, p);
    let b2 = bias_step_fits(y, role, d, lp, regime, Phase63RepairOperator::BridgeRebind, p);
    let b3 = bias_step_fits(y, role, d, lp, regime, Phase63RepairOperator::CoreStabilize, p);
    let b4 = bias_step_fits(y, role, d, lp, regime, Phase63RepairOperator::ClosureBridge, p);
    let b5 = bias_step_fits(y, role, d, lp, regime, Phase63RepairOperator::ContradictionRedirect, p);
    let b6 = bias_step_fits(y, role, d, lp, regime, Phase63RepairOperator::AnchorReweight, p);
    let ok = b1 && b2 && b3 && b4 && b5 && b6;
    proof {
        assert(p as int == region_pressure(s@, y@));
        assert(d as int == local_deficit(s@, rv(*r), y@));
        assert(role == role_of(s@, y@));
        assert(lp as int == learned_preference(y@, role_of(s@, y@), p as int, d as int));
        if ok {
            assert forall|op: Phase63RepairOperator| #[trigger] rank_fits(s@, rv(*r), regime@, y@, op) by {
                match op {
                    Phase63RepairOperator::BoundaryDampen => {},
                    Phase63RepairOperator::BridgeRebind => {},
                    Phase63RepairOperator::CoreStabilize => {},
                    Phase63RepairOperator::ClosureBridge => {},
                    Phase63RepairOperator::ContradictionRedirect => {},
                    Phase63RepairOperator::AnchorReweight => {},
                }
            }
        } else if !b1 {
            assert(!rank_fits(s@, rv(*r), regime@, y@, Phase63RepairOperator::BoundaryDampen));
        } else if !b2 {
            assert(!rank_fits(s@, rv(*r), regime@, y@, Phase63RepairOperator::BridgeRebind));
        } else if !b3 {
            assert(!rank_fits(s@, rv(*r), regime@, y@, Phase63RepairOperator::CoreStabilize));
        } else if !b4 {
            assert(!rank_fits(s@, rv(*r), regime@, y@, Phase63RepairOperator::ClosureBridge));
        } else if !b5 {
            assert(!rank_fits(s@, rv(*r), regime@, y@, Phase63RepairOperator::ContradictionRedirect));
        } else {
            assert(!rank_fits(s@, rv(*r), regime@, y@, Phase63RepairOperator::AnchorReweight));
        }
    }
    ok
}

fn bias_step_fits(
    y: &str,
    role: Phase63RegionRole,
    d: i64,
    lp: i32,
    regime: &str,
    op: Phase63RepairOperator,
    p: i64,
) -> (b: bool)
    requires
        fits_i32(d as int),
        0 <= p <= i32::MAX,
    ensures
        b == fits_i32(p + d + lp + operator_bias(y@, role, d as int, op, lp as int, regime@)),
{
    let bias = phase63_operator_preference_bias(y, role, d as i32, op, lp, regime);
    fits_i32_exec(p + d + lp as i64 + bias as i64)
}

/// Whether every region pressure, and every step of every candidate rank,
/// fits `i32` for constraints `s` under runtime `r` and its regime.
pub fn phase63_ranks_fit(s: &[SemanticConstraint], r: &Phase63RuntimeSummary, regime: &str) -> (b: bool)
    requires
        s@.len() <= MAX_CONSTRAINTS,
        runtime_fits(rv(*r)),
    ensures
        b == (pressures_fit(s@) && ranks_fit(s@, rv(*r), regime@)),
{
    let deficit = phase63_closure_deficit_index(r);
    let subs = distinct_subjects(s);
    let ghost sv = views(subs@);
    let mut i: usize = 0;
    while i < subs.len()
        invariant
            s@.len() <= MAX_CONSTRAINTS,
            deficit == deficit_index(rv(*r)),
            sv == views(subs@),
            sv.to_set() == subjects_of(s@),
            i <= subs@.len(),
            forall|j: int| 0 <= j < i ==> region_pressure(s@, #[trigger] sv[j]) <= i32::MAX,
            forall|j: int, op: Phase63RepairOperator| 0 <= j < i ==> #[trigger] rank_fits(s@, rv(*r), regime@, sv[j], op),
        decreases subs@.len() - i,
    {
        assert(sv[i as int] == subs@[i as int]@);
        if !subject_ranks_fit(s, r, regime, subs[i].as_str(), deficit) {
            proof {
                assert(sv.contains(sv[i as int]));
                assert(subjects_of(s@).contains(sv[i as int]));
                if region_pressure(s@, sv[i as int]) <= i32::MAX {
                    let op = choose|op: Phase63RepairOperator| !rank_fits(s@, rv(*r), regime@, sv[i as int], op);
                    assert(!rank_fits(s@, rv(*r), regime@, sv[i as int], op));
                }
            }
            return false;
        }
        i = i + 1;
    }
    proof {
        assert forall|y: Seq<char>| #[trigger] subjects_of(s@).contains(y) implies region_pressure(s@, y) <= i32::MAX by {
            assert(sv.to_set().contains(y));
            let j = choose|j: int| 0 <= j < sv.len() && sv[j] == y;
        }
        assert forall|y: Seq<char>, op: Phase63RepairOperator| subjects_of(s@).contains(y) implies #[trigger] rank_fits(
            s@,
            rv(*r),
            regime@,
            y,
            op,
        ) by {
            assert(sv.to_set().contains(y));
            let j = choose|j: int| 0 <= j < sv.len() && sv[j] == y;
            assert(rank_fits(s@, rv(*r), regime@, sv[j], op));
        }
    }
    true
}

// ── repair model ─────────────────────────────────────────────────────────────

pub open spec fn operator_predicate(op: Phase63RepairOperator) -> Seq<char> {
    match op {
        Phase63RepairOperator::BoundaryDampen => "phase63/topology_boundary_dampen"@,
        Phase63RepairOperator::BridgeRebind => "phase63/topology_bridge_rebind"@,
        Phase63RepairOperator::CoreStabilize => "phase63/topology_core_stabilize"@,
        Phase63RepairOperator::ClosureBridge => "phase63/closure_bridge"@,
        Phase63RepairOperator::ContradictionRedirect => "phase63/contradiction_redirect"@,
        Phase63RepairOperator::AnchorReweight => "phase63/anchor_reweight"@,
    }
}

/// Some constraint of `out` has this subject and predicate.
pub open spec fn has_subject_predicate(out: Seq<CView>, subject: Seq<char>, predicate: Seq<char>) -> bool {
    exists|i: int| 0 <= i < out.len() && (#[trigger] out[i]).0 == subject && out[i].1 == predicate
}

/// The repair of target `t` is already in place (an anchor reweight also
/// counts a continuity surge).
pub open spec fn repair_present(out: Seq<CView>, t: TView) -> bool {
    has_subject_predicate(out, t.0, operator_predicate(t.4)) || (t.4 == Phase63RepairOperator::AnchorReweight
        && has_subject_predicate(out, t.0, "phase63/continuity_surge"@))
}

/// The continuity lift applies in a closure deficit with at least three
/// new regions and flat continuity.
pub open spec fn lift_enabled(regime: Seq<char>, r: RuntimeView) -> bool {
    is_closure_deficit(regime) && region_delta(r) >= 3 && continuity_delta(r) == 0
}

/// The continuity surge applies to walking in spiral-lurch holdouts and to
/// stacking in blind-regrasp holdouts, in a flat closure deficit.
pub open spec fn surge_enabled(regime: Seq<char>, r: RuntimeView, region: Seq<char>) -> bool {
    &&& is_closure_deficit(regime)
    &&& continuity_delta(r) == 0
    &&& ((region == "walking"@ && has_sub(r.holdout_id, "spiral_lurch"@)) || (region == "stacking"@ && has_sub(
        r.holdout_id,
        "blind_regrasp"@,
    )))
}

/// The best anchor other than `region`, else the best anchor, else `region`.
pub open spec fn partner_or_self(s: Seq<SemanticConstraint>, region: Seq<char>) -> Seq<char> {
    match best(Selector::AnchorExcluding, s, region) {
        Some(a) => a,
        None => match best(Selector::Anchor, s, Seq::empty()) {
            Some(a) => a,
            None => region,
        },
    }
}

/// The constraints a repair operator adds for a region.
pub open spec fn repair_constraints(
    s: Seq<SemanticConstraint>,
    bw: u8,
    region: Seq<char>,
    op: Phase63RepairOperator,
) -> Seq<CView> {
    let energy = "phase63/closure_energy_reinforce"@;
    match op {
        Phase63RepairOperator::BoundaryDampen => seq![
            assertion_view(region, "phase63/topology_boundary_dampen"@, sat_add(bw, 2)),
        ],
        Phase63RepairOperator::BridgeRebind => seq![
            (
                region,
                "phase63/topology_bridge_rebind"@,
                best(Selector::AnchorExcluding, s, region),
                true,
                ConstraintKind::Link,
                sat_add(bw, 1) as u8,
            ),
        ],
        Phase63RepairOperator::CoreStabilize => seq![
            assertion_view(region, "phase63/topology_core_stabilize"@, bw as int),
        ],
        Phase63RepairOperator::ClosureBridge => seq![
            link_view(region, "phase63/closure_bridge"@, partner_or_self(s, region), sat_add(bw, 4)),
            assertion_view(region, energy, sat_add(bw, 4)),
        ],
        Phase63RepairOperator::ContradictionRedirect => seq![
            link_view(region, "phase63/contradiction_redirect"@, partner_or_self(s, region), sat_add(bw, 3)),
            assertion_view(region, energy, sat_add(bw, 2)),
        ],
        Phase63RepairOperator::AnchorReweight => seq![
            link_view(
                region,
                "phase63/anchor_reweight"@,
                match best(Selector::Anchor, s, Seq::empty()) {
                    Some(a) => a,
                    None => region,
                },
                sat_add(bw, 2),
            ),
            assertion_view(region, energy, sat_add(bw, 1)),
        ],
    }
}

/// The state of a repair run: constraints so far, targets applied, whether
/// the continuity lift was added.
pub type RepairState = (Seq<CView>, int, bool);

/// One target applied: skipped when already in place; otherwise its
/// constraints, the closure-energy reinforcement if missing, the continuity
/// lift once if enabled, and the continuity surge if enabled.
pub open spec fn repair_step(
    s: Seq<SemanticConstraint>,
    bw: u8,
    regime: Seq<char>,
    r: RuntimeView,
    st: RepairState,
    t: TView,
) -> RepairState {
    if repair_present(st.0, t) {
        st
    } else {
        let a = st.0 + repair_constraints(s, bw, t.0, t.4);
        let b = if has_subject_predicate(a, t.0, "phase63/closure_energy_reinforce"@) {
            a
        } else {
            a.push(
                assertion_view(
                    t.0,
                    "phase63/closure_energy_reinforce"@,
                    if is_closure_deficit(regime) {
                        sat_add(bw, 3)
                    } else {
                        sat_add(bw, 1)
                    },
                ),
            )
        };
        let lift = lift_enabled(regime, r) && !st.2 && !has_subject_predicate(
            b,
            t.0,
            "phase63/continuity_closure_lift"@,
        );
        let c = if lift {
            b.push(assertion_view(t.0, "phase63/continuity_closure_lift"@, sat_add(bw, 4)))
        } else {
            b
        };
        let d = if surge_enabled(regime, r, t.0) && !has_subject_predicate(c, t.0, "phase63/continuity_surge"@) {
            c.push(assertion_view(t.0, "phase63/continuity_surge"@, sat_add(bw, 6)))
        } else {
            c
        };
        (d, st.1 + 1, st.2 || lift)
    }
}

/// The repair run over the first `k` targets.
pub open spec fn repair_run(
    s: Seq<SemanticConstraint>,
    bw: u8,
    targets: Seq<TView>,
    regime: Seq<char>,
    r: RuntimeView,
    k: int,
) -> RepairState
    decreases k,
{
    if k <= 0 {
        (cviews(s), 0, false)
    } else {
        repair_step(s, bw, regime, r, repair_run(s, bw, targets, regime, r, k - 1), targets[k - 1])
    }
}

/// A plan applied: at most three targets (at least one is tried), in order.
pub open spec fn applied_plan(
    s: Seq<SemanticConstraint>,
    config: Phase62StructuralConfig,
    targets: Seq<TView>,
    regime: Seq<char>,
    r: RuntimeView,
) -> (Seq<CView>, int) {
    let n = if targets.len() < generation_cap(config, 3) {
        targets.len() as int
    } else {
        generation_cap(config, 3)
    };
    let st = repair_run(s, config.bridge_weight, targets, regime, r, n);
    (st.0, st.1)
}


// ── telemetry model ──────────────────────────────────────────────────────────

pub open spec fn role_name(role: Phase63RegionRole) -> Seq<char> {
    match role {
        Phase63RegionRole::Boundary => "Boundary"@,
        Phase63RegionRole::Bridge => "Bridge"@,
        Phase63RegionRole::Core => "Core"@,
    }
}

pub open spec fn operator_name(op: Phase63RepairOperator) -> Seq<char> {
    match op {
        Phase63RepairOperator::BoundaryDampen => "BoundaryDampen"@,
        Phase63RepairOperator::BridgeRebind => "BridgeRebind"@,
        Phase63RepairOperator::CoreStabilize => "CoreStabilize"@,
        Phase63RepairOperator::ClosureBridge => "ClosureBridge"@,
        Phase63RepairOperator::ContradictionRedirect => "ContradictionRedirect"@,
        Phase63RepairOperator::AnchorReweight => "AnchorReweight"@,
    }
}

pub open spec fn target_line(t: TView) -> Seq<char> {
    t.0 + ":"@ + role_name(t.1) + ":"@ + operator_name(t.4) + ":p"@ + dec_int(t.2) + ":d"@ + dec_int(t.3)
}

/// The published plan: its targets joined by `|`, or `none`.
pub open spec fn plan_line(ts: Seq<TView>) -> Seq<char> {
    "kind=topology_guided_contradiction_repair targets="@ + if ts.len() == 0 {
        "none"@
    } else {
        join(ts.map_values(|t: TView| target_line(t)), "|"@)
    }
}

/// A closure bridge then an anchor reweight on one region.
pub open spec fn forced_route(ts: Seq<TView>) -> bool {
    ts.len() == 2 && ts[0].0 == ts[1].0 && ts[0].4 == Phase63RepairOperator::ClosureBridge && ts[1].4
        == Phase63RepairOperator::AnchorReweight
}

/// How the plan routes its repair.
pub open spec fn route_style(ts: Seq<TView>) -> Seq<char> {
    let cb = Phase63RepairOperator::ClosureBridge;
    if ts.len() == 2 && ts[0].0 == ts[1].0 && ts[0].4 == cb && ts[1].4 == Phase63RepairOperator::AnchorReweight {
        "forced_two_step"@
    } else if ts.len() == 2 && ts[0].0 == ts[1].0 && ts[0].4 == cb && ts[1].4
        == Phase63RepairOperator::ContradictionRedirect {
        "learned_two_step"@
    } else if ts.len() == 1 && (ts[0].4 == cb || ts[0].4 == Phase63RepairOperator::ContradictionRedirect || ts[0].4
        == Phase63RepairOperator::AnchorReweight) {
        "closure_deficit_bridge"@
    } else {
        "standard"@
    }
}

/// Why the continuity lift is off, or `enabled`.
pub open spec fn lift_blocker(regime: Seq<char>, r: RuntimeView) -> Seq<char> {
    if !is_closure_deficit(regime) {
        "regime!=closure_deficit"@
    } else if region_delta(r) < 3 {
        "region_delta<3"@
    } else if continuity_delta(r) != 0 {
        "continuity_delta!=0"@
    } else {
        "enabled"@
    }
}

pub open spec fn deltas_text(r: RuntimeView) -> Seq<char> {
    " continuity_delta="@ + dec_int(continuity_delta(r)) + " external_delta="@ + dec_int(external_delta(r))
        + " region_delta="@ + dec_int(region_delta(r)) + " anchor_delta="@ + dec_int(anchor_delta(r))
}

/// The diagnostic line of a plan.
pub open spec fn diagnostic_line(ts: Seq<TView>, regime: Seq<char>, r: RuntimeView, holdout: Seq<char>) -> Seq<
    char,
> {
    let route = route_style(ts);
    "holdout_id="@ + holdout + " regime="@ + regime + " route_style="@ + route + " continuity_lift_blocker="@
        + lift_blocker(regime, r) + " forced_signature="@ + (if forced_route(ts) {
        ts[0].0 + ":"@ + dec_nat(ts.len())
    } else {
        "none"@
    }) + deltas_text(r)
}

/// `i32::saturating_neg`.
pub open spec fn sat_neg(x: int) -> int {
    if x == i32::MIN {
        i32::MAX as int
    } else {
        -x
    }
}

/// The published telemetry line of a repair run.
pub open spec fn repair_line(r: RuntimeView, selected: int, applied: int) -> Seq<char> {
    "holdout_id="@ + r.holdout_id + " selected_targets="@ + dec_nat(selected as nat) + " applied_targets="@
        + dec_nat(applied as nat) + " skipped_reason="@ + "none"@ + " supervisor_intensity="@ + dec_int(
        sat_neg(continuity_rebased(r)),
    ) + " problematic="@ + bool_text(continuity_delta(r) == 0 && continuity_rebased(r) < 0) + " continuity_delta="@
        + dec_int(continuity_delta(r)) + " external_delta="@ + dec_int(external_delta(r)) + " region_delta="@
        + dec_int(region_delta(r)) + " anchor_delta="@ + dec_int(anchor_delta(r))
}

/// The telemetry line of a skipped repair.
pub open spec fn skip_line(holdout: Seq<char>, reason: Seq<char>) -> Seq<char> {
    "holdout_id="@ + holdout + " selected_targets=0 applied_targets=0 skipped_reason="@ + reason
        + " supervisor_intensity=0 problematic=false continuity_delta=0 external_delta=0 region_delta=0 anchor_delta=0"@
}

/// An environment assignment: variable and value.
pub type Assignment = (Seq<char>, Seq<char>);

pub open spec fn skip_assignments(holdout: Seq<char>, reason: Seq<char>, diagnostic: Seq<char>) -> Seq<Assignment> {
    seq![
        ("GORT_PHASE63_PLAN"@, "kind=topology_guided_contradiction_repair targets=none"@),
        ("GORT_PHASE63_TELEMETRY"@, skip_line(holdout, reason)),
        ("GORT_PHASE63_DIAGNOSTIC"@, diagnostic),
        ("GORT_PHASE63_REGIME"@, "unknown"@),
    ]
}

/// The plan and regime to use: the cached ones when they were stored for
/// this holdout (and the regime is not blank), else the canonical ones; the
/// flag says whether they were computed.
pub open spec fn plan_choice(
    s: Seq<SemanticConstraint>,
    r: RuntimeView,
    cached_target: Option<Seq<char>>,
    cached_plan: Option<Seq<TView>>,
    cached_regime: Option<Seq<char>>,
) -> (Seq<TView>, Seq<char>, bool) {
    if cached_target == Some(r.holdout_id) && cached_plan is Some && cached_regime is Some && trim_ws(
        cached_regime->Some_0,
    ).len() > 0 {
        (cached_plan->Some_0, cached_regime->Some_0, false)
    } else {
        (selected_targets(s, r, regime_of(r)), regime_of(r), true)
    }
}

/// The converted summary's arithmetic fits, and so do the candidate ranks.
pub open spec fn repair_inputs_fit(s: Seq<SemanticConstraint>, rt: Phase62RuntimeSummary, t: Seq<char>) -> bool {
    let r = from62(rt, t);
    &&& pressures_fit(s)
    &&& runtime_fits(r)
    &&& ranks_fit(s, r, regime_of(r))
}

/// The topology-guided repair run for a holdout: the probe result, the
/// environment assignments it publishes, and the plan it stores.
pub open spec fn topology_repair(
    s: Seq<SemanticConstraint>,
    config: Phase62StructuralConfig,
    t: Seq<char>,
    r: Option<RuntimeView>,
    cached_target: Option<Seq<char>>,
    cached_plan: Option<Seq<TView>>,
    cached_regime: Option<Seq<char>>,
) -> (ProbeView, Seq<Assignment>, Option<Seq<TView>>) {
    match r {
        None => (
            unchanged(s, "phase63 topology repair skipped for target "@ + t + ": missing runtime summary"@),
            skip_assignments(
                t,
                "missing_runtime_summary"@,
                "holdout_id=unknown regime=unknown route_style=none continuity_lift_blocker=missing_runtime_summary forced_signature=none continuity_delta=0 external_delta=0 region_delta=0 anchor_delta=0"@,
            ),
            None,
        ),
        Some(r) => {
            let choice = plan_choice(s, r, cached_target, cached_plan, cached_regime);
            let ts = choice.0;
            let regime = choice.1;
            let canonical: Seq<Assignment> = if choice.2 {
                seq![("GORT_PHASE63_CANONICAL_TARGET"@, r.holdout_id), ("GORT_PHASE63_CANONICAL_REGIME"@, regime)]
            } else {
                Seq::empty()
            };
            let stored = if choice.2 {
                Some(ts)
            } else {
                None
            };
            let diagnostic = diagnostic_line(ts, regime, r, t);
            if ts.len() == 0 {
                (
                    unchanged(s, "phase63 topology repair skipped for target "@ + t + ": no repair targets"@),
                    canonical + skip_assignments(t, "no_targets"@, diagnostic),
                    stored,
                )
            } else {
                let run = applied_plan(s, config, ts, regime, r);
                (
                    (
                        run.0,
                        run.1 > 0,
                        run.1,
                        "phase63 topology repair targets="@ + dec_nat(ts.len()) + " applied="@ + dec_nat(
                            run.1 as nat,
                        ) + " holdout="@ + r.holdout_id,
                    ),
                    canonical + seq![
                        ("GORT_PHASE63_PLAN"@, plan_line(ts)),
                        ("GORT_PHASE63_TELEMETRY"@, repair_line(r, ts.len() as int, run.1)),
                        ("GORT_PHASE63_DIAGNOSTIC"@, diagnostic),
                        ("GORT_PHASE63_REGIME"@, regime),
                    ],
                    stored,
                )
            }
        },
    }
}

/// Whether the raw hand-off setting reads as yes (`true`, `1`, `yes`, any
/// case, surrounding whitespace ignored).
pub open spec fn handoff_of(raw: Option<Seq<char>>) -> bool {
    match raw {
        None => false,
        Some(v) => {
            let l = ascii_lower(trim_ws(v));
            l == "true"@ || l == "1"@ || l == "yes"@
        },
    }
}

/// The rebase telemetry line of a summary.
pub open spec fn rebase_line(r: RuntimeView, escalation: bool) -> Seq<char> {
    let t = rebase_terms(continuity_delta(r), pressure_ratio_ppm(r), region_delta(r), anchor_delta(r));
    "holdout_id="@ + r.holdout_id + " mode="@ + "telemetry_only"@
        + " alpha_num=4 alpha_den=1000000 beta=2 gamma=1 continuity_pre="@ + dec_int(r.continuity_pre as int)
        + " continuity_post="@ + dec_int(r.continuity_post as int) + " continuity_delta="@ + dec_int(
        continuity_delta(r),
    ) + " external_delta="@ + dec_int(external_delta(r)) + " region_delta="@ + dec_int(region_delta(r))
        + " anchor_delta="@ + dec_int(anchor_delta(r)) + " support_signal="@ + dec_int(r.support_signal as int)
        + " contradiction_signal="@ + dec_int(r.contradiction_signal as int) + " contradiction_pressure_ratio_ppm="@
        + dec_int(pressure_ratio_ppm(r)) + " contradiction_penalty="@ + dec_int(t.0) + " region_reward="@ + dec_int(
        t.1,
    ) + " anchor_reward="@ + dec_int(t.2) + " continuity_rebased="@ + dec_int(t.3) + " escalation_handoff="@
        + bool_text(escalation) + " phase67_escalation_marker="@ + bool_text(escalation) + " short_window_baseline="@
        + dec_int(r.continuity_post as int) + " medium_window_baseline="@ + dec_int(
        trunc_div(r.continuity_pre + r.continuity_post, 2),
    ) + " long_window_baseline="@ + dec_int(r.continuity_pre as int)
}

/// The hand-off line of a holdout.
pub open spec fn handoff_line(holdout: Seq<char>, marker: bool) -> Seq<char> {
    "holdout_id="@ + holdout + " phase67_escalation_marker_in="@ + bool_text(marker) + " phase67_semantic_context="@
        + "empty"@ + " phase67_ready="@ + bool_text(true)
}

/// The continuity-rebase telemetry run: it never changes the constraints.
pub open spec fn rebase_telemetry(
    s: Seq<SemanticConstraint>,
    t: Seq<char>,
    r: Option<RuntimeView>,
    escalation: bool,
) -> (ProbeView, Seq<Assignment>) {
    match r {
        None => (
            unchanged(s, "phase66 continuity rebase telemetry skipped for target "@ + t + ": missing runtime summary"@),
            seq![
                ("GORT_PHASE66_TELEMETRY"@, "holdout_id="@ + t + " mode=telemetry_only status=missing_runtime_summary"@),
                ("GORT_PHASE67_TELEMETRY"@, handoff_line(t, false)),
            ],
        ),
        Some(r) => (
            unchanged(s, "phase66 continuity rebase telemetry emitted for holdout "@ + r.holdout_id),
            seq![
                ("GORT_PHASE66_TELEMETRY"@, rebase_line(r, escalation)),
                ("GORT_PHASE67_TELEMETRY"@, handoff_line(r.holdout_id, escalation)),
            ],
        ),
    }
}

// ── target lemmas ────────────────────────────────────────────────────────────

proof fn lemma_insert_target_at(s: Seq<TView>, x: TView, full: bool, p: int)
    requires
        0 <= p <= s.len(),
        forall|k: int|
            0 <= k < p ==> !(if full {
                target_before(x, #[trigger] s[k])
            } else {
                region_before(x, s[k])
            }),
        p < s.len() ==> (if full {
            target_before(x, s[p])
        } else {
            region_before(x, s[p])
        }),
    ensures
        insert_target(s, x, full) == s.subrange(0, p) + seq![x] + s.subrange(p, s.len() as int),
    decreases p,
{
    if p == 0 {
        if s.len() == 0 {
            assert(s.subrange(0, 0) + seq![x] + s.subrange(0, 0) =~= seq![x]);
        } else {
            assert(s.subrange(0, 0) + seq![x] + s.subrange(0, s.len() as int) =~= seq![x] + s);
        }
    } else {
        let t = s.drop_first();
        assert forall|k: int|
            0 <= k < p - 1 implies !(if full {
                target_before(x, #[trigger] t[k])
            } else {
                region_before(x, t[k])
            }) by {
            assert(t[k] == s[k + 1]);
        }
        if p - 1 < t.len() {
            assert(t[p - 1] == s[p]);
        }
        lemma_insert_target_at(t, x, full, p - 1);
        assert(s.subrange(0, p) + seq![x] + s.subrange(p, s.len() as int) =~= seq![s[0]] + (t.subrange(0, p - 1)
            + seq![x] + t.subrange(p - 1, t.len() as int)));
    }
}


proof fn lemma_insert_entry_at(s: Seq<Entry>, x: Entry, p: int)
    requires
        0 <= p <= s.len(),
        forall|k: int| 0 <= k < p ==> !entry_before(x, #[trigger] s[k]),
        p < s.len() ==> entry_before(x, s[p]),
    ensures
        insert_entry(s, x) == s.subrange(0, p) + seq![x] + s.subrange(p, s.len() as int),
    decreases p,
{
    if p == 0 {
        if s.len() == 0 {
            assert(s.subrange(0, 0) + seq![x] + s.subrange(0, 0) =~= seq![x]);
        } else {
            assert(s.subrange(0, 0) + seq![x] + s.subrange(0, s.len() as int) =~= seq![x] + s);
        }
    } else {
        let t = s.drop_first();
        assert forall|k: int| 0 <= k < p - 1 implies !entry_before(x, #[trigger] t[k]) by {
            assert(t[k] == s[k + 1]);
        }
        if p - 1 < t.len() {
            assert(t[p - 1] == s[p]);
        }
        lemma_insert_entry_at(t, x, p - 1);
        assert(s.subrange(0, p) + seq![x] + s.subrange(p, s.len() as int) =~= seq![s[0]] + (t.subrange(0, p - 1)
            + seq![x] + t.subrange(p - 1, t.len() as int)));
    }
}

// ── runtime kernel ───────────────────────────────────────────────────────────

impl Phase63RuntimeSummary {
    pub fn continuity_delta(&self) -> (d: i32)
        requires
            fits_i32(continuity_delta(rv(*self))),
        ensures
            d == continuity_delta(rv(*self)),
    {
        self.continuity_post - self.continuity_pre
    }

    pub fn external_delta(&self) -> (d: i32)
        requires
            fits_i32(external_delta(rv(*self))),
        ensures
            d == external_delta(rv(*self)),
    {
        self.external_post - self.external_pre
    }

    pub fn region_delta(&self) -> (d: i32)
        requires
            fits_i32(region_delta(rv(*self))),
        ensures
            d == region_delta(rv(*self)),
    {
        self.regions_post as i32 - self.regions_pre as i32
    }

    pub fn anchor_delta(&self) -> (d: i32)
        requires
            fits_i32(anchor_delta(rv(*self))),
        ensures
            d == anchor_delta(rv(*self)),
    {
        self.anchors_post as i32 - self.anchors_pre as i32
    }
}

/// The phase-63 view of a phase-62 runtime summary for a holdout, each
/// measurement taken as `i32` as the runtime does.
pub fn phase63_runtime_summary_from_phase62(rt: Phase62RuntimeSummary, target: &str) -> (r: Phase63RuntimeSummary)
    ensures
        rv(r) == from62(rt, target@),
{
    Phase63RuntimeSummary {
        holdout_id: text(target),
        continuity_pre: rt.continuity_before as i32,
        continuity_post: rt.continuity_after_pre as i32,
        external_pre: rt.external_before as i32,
        external_post: rt.external_after_pre as i32,
        regions_pre: rt.regions_before,
        regions_post: rt.regions_after_pre,
        anchors_pre: rt.anchors_before,
        anchors_post: rt.anchors_after_pre,
        support_signal: rt.support_signal as i32,
        contradiction_signal: rt.contradiction_signal as i32,
    }
}

/// The closure regime of a runtime summary.
pub fn classify_phase63_regime(r: &Phase63RuntimeSummary) -> (g: String)
    requires
        runtime_fits(rv(*r)),
    ensures
        g@ == regime_of(rv(*r)),
{
    if r.continuity_delta() <= 0 || r.external_delta() >= 0 || r.region_delta() <= 0 {
        text("closure_deficit")
    } else {
        text("closure_ready")
    }
}

/// The global closure deficit index.
pub fn phase63_closure_deficit_index(r: &Phase63RuntimeSummary) -> (d: i32)
    requires
        runtime_fits(rv(*r)),
    ensures
        d == deficit_index(rv(*r)),
{
    let structure = r.region_delta() + r.anchor_delta();
    let mut deficit: i32 = 0;
    if r.continuity_delta() <= 0 {
        deficit = deficit + 40;
    }
    if r.external_delta() >= 0 {
        deficit = deficit + 30;
    }
    if structure <= 0 {
        deficit = deficit + 20;
    }
    if r.contradiction_signal > r.support_signal {
        deficit = deficit + 10;
    }
    deficit
}

/// The rebase terms: penalty, region reward, anchor reward, rebased
/// continuity.
pub fn phase66_continuity_rebase_terms(cd: i32, ratio: i32, rd: i32, ad: i32) -> (r: (i32, i32, i32, i32))
    requires
        fits_i32(4 * ratio),
        fits_i32(2 * rd),
        fits_i32(cd - trunc_div(4 * ratio, 1_000_000)),
        fits_i32(cd - trunc_div(4 * ratio, 1_000_000) + 2 * rd),
        fits_i32(cd - trunc_div(4 * ratio, 1_000_000) + 2 * rd + ad),
    ensures
        (r.0 as int, r.1 as int, r.2 as int, r.3 as int) == rebase_terms(cd as int, ratio as int, rd as int, ad as int),
{
    let penalty = (4 * ratio) / 1_000_000;
    let region_reward = 2 * rd;
    let anchor_reward = ad;
    (penalty, region_reward, anchor_reward, cd - penalty + region_reward + anchor_reward)
}

/// The contradiction ratio in millionths.
pub fn phase66_pressure_ratio(r: &Phase63RuntimeSummary) -> (p: i32)
    requires
        runtime_fits(rv(*r)),
    ensures
        p == pressure_ratio_ppm(rv(*r)),
{
    let denominator = if r.support_signal < 1 {
        1
    } else {
        r.support_signal
    };
    let scaled = r.contradiction_signal * 1_000_000;
    proof {
        let d = denominator as int;
        let a = scaled as int;
        if a >= 0 {
            assert(0 <= a / d <= a) by (nonlinear_arith)
                requires
                    a >= 0,
                    d >= 1,
            ;
        } else {
            assert(0 <= (-a) / d <= -a) by (nonlinear_arith)
                requires
                    a < 0,
                    d >= 1,
            ;
        }
    }
    scaled / denominator
}

/// The rebased continuity of a runtime summary.
pub fn phase66_continuity_rebased_from_runtime(r: &Phase63RuntimeSummary) -> (c: i32)
    requires
        runtime_fits(rv(*r)),
    ensures
        c == continuity_rebased(rv(*r)),
{
    let ratio = phase66_pressure_ratio(r);
    let (_, _, _, rebased) = phase66_continuity_rebase_terms(
        r.continuity_delta(),
        ratio,
        r.region_delta(),
        r.anchor_delta(),
    );
    rebased
}

fn is_deficit_text(regime: &str) -> (b: bool)
    ensures
        b == is_closure_deficit(regime@),
{
    same_text(&text(regime), &text("closure_deficit"))
}

/// The supervised bridge operator for a rebased continuity signal.
pub fn phase63_operator_from_rebased_signal(rebased: i32, regime: &str) -> (r: Option<Phase63RepairOperator>)
    ensures
        r == operator_for_signal(rebased as int, regime@),
{
    if !is_deficit_text(regime) {
        None
    } else if rebased <= -3 {
        Some(Phase63RepairOperator::ContradictionRedirect)
    } else if rebased <= 0 {
        Some(Phase63RepairOperator::ClosureBridge)
    } else {
        None
    }
}

/// The follow-on to an operator while the signal stays flat.
pub fn phase63_follow_on_operator_for_flat_signal(
    op: Phase63RepairOperator,
    r: &Phase63RuntimeSummary,
) -> (f: Option<Phase63RepairOperator>)
    requires
        runtime_fits(rv(*r)),
    ensures
        f == follow_on_for(op, rv(*r)),
{
    match op {
        Phase63RepairOperator::ClosureBridge => if phase66_continuity_rebased_from_runtime(r) <= 0 {
            Some(Phase63RepairOperator::AnchorReweight)
        } else {
            None
        },
        Phase63RepairOperator::ContradictionRedirect => if r.external_delta() == 0 {
            Some(Phase63RepairOperator::ClosureBridge)
        } else {
            None
        },
        Phase63RepairOperator::AnchorReweight => if r.region_delta() == 0 {
            Some(Phase63RepairOperator::ClosureBridge)
        } else {
            None
        },
        _ => None,
    }
}

/// The order of operators within a region.
pub fn phase63_repair_operator_sort_key(op: Phase63RepairOperator) -> (k: u8)
    ensures
        k == operator_rank(op),
{
    match op {
        Phase63RepairOperator::BoundaryDampen => 0,
        Phase63RepairOperator::BridgeRebind => 1,
        Phase63RepairOperator::CoreStabilize => 2,
        Phase63RepairOperator::ClosureBridge => 3,
        Phase63RepairOperator::ContradictionRedirect => 4,
        Phase63RepairOperator::AnchorReweight => 5,
    }
}

fn is_text(s: &str, lit: &str) -> (b: bool)
    ensures
        b == (s@ == lit@),
{
    same_text(&text(s), &text(lit))
}

/// The preference learned for walking and stacking bridge regions.
pub fn phase63_learned_pattern_preference(subject: &str, role: Phase63RegionRole, cp: i32, cdi: i32) -> (p: i32)
    ensures
        p == learned_preference(subject@, role, cp as int, cdi as int),
{
    if role != Phase63RegionRole::Bridge {
        return 0;
    }
    let walking = is_text(subject, "walking");
    let stacking = is_text(subject, "stacking");
    if walking && cp >= 150 && cdi >= 118 {
        60
    } else if walking && cp >= 118 && cdi >= 109 {
        40
    } else if walking && cp >= 154 && cdi >= 88 {
        50
    } else if walking && cp >= 127 && cdi <= 101 {
        -30
    } else if stacking && cp == 115 && cdi == 78 {
        20
    } else if stacking && cp == 123 && cdi >= 110 {
        -20
    } else if walking && cp >= 127 && cdi >= 101 {
        30
    } else if walking && cp == 127 && cdi == 71 {
        -30
    } else {
        0
    }
}

/// The bias of an operator for a region's role under the regime.
pub fn phase63_operator_preference_bias(
    subject: &str,
    role: Phase63RegionRole,
    cdi: i32,
    op: Phase63RepairOperator,
    lp: i32,
    regime: &str,
) -> (b: i32)
    ensures
        b == operator_bias(subject@, role, cdi as int, op, lp as int, regime@),
{
    let deficit = is_deficit_text(regime);
    let bridge = role == Phase63RegionRole::Bridge;
    if deficit && bridge && op == Phase63RepairOperator::ClosureBridge {
        if lp >= 50 || (is_text(subject, "walking") && cdi >= 118) {
            80
        } else if lp >= 30 {
            45
        } else {
            10
        }
    } else if deficit && bridge && op == Phase63RepairOperator::ContradictionRedirect {
        if lp >= 30 {
            55
        } else if is_text(subject, "walking") && cdi >= 101 {
            30
        } else {
            8
        }
    } else if deficit && bridge && op == Phase63RepairOperator::AnchorReweight {
        if lp >= 20 {
            35
        } else if is_text(subject, "stacking") && cdi >= 110 {
            28
        } else {
            6
        }
    } else if deficit && bridge && op == Phase63RepairOperator::BridgeRebind {
        20
    } else if deficit && bridge && op == Phase63RepairOperator::BoundaryDampen {
        5
    } else if role == Phase63RegionRole::Boundary && op == Phase63RepairOperator::BoundaryDampen {
        10
    } else if role == Phase63RegionRole::Core && op == Phase63RepairOperator::CoreStabilize {
        10
    } else {
        0
    }
}

/// The role of a region among the constraints.
pub fn phase63_role_for_subject(s: &[SemanticConstraint], subject: &str) -> (r: Phase63RegionRole)
    requires
        s@.len() <= MAX_CONSTRAINTS,
    ensures
        r == role_of(s@, subject@),
{
    if subject_total(s, subject, Metric::BoundaryMentions) > 0 {
        Phase63RegionRole::Boundary
    } else if subject_total(s, subject, Metric::BridgeMentions) > 0 {
        Phase63RegionRole::Bridge
    } else {
        Phase63RegionRole::Core
    }
}

/// The contradiction pressure of a region.
pub fn phase63_contradiction_pressure_for_subject(s: &[SemanticConstraint], subject: &str) -> (p: i32)
    requires
        s@.len() <= MAX_CONSTRAINTS,
        region_pressure(s@, subject@) <= i32::MAX,
    ensures
        p == region_pressure(s@, subject@),
{
    proof {
        lemma_subject_sum_bounds(s@, subject@, Metric::RegionPressure);
    }
    subject_total(s, subject, Metric::RegionPressure) as i32
}


// ── target kernel ────────────────────────────────────────────────────────────

/// A field-for-field copy of a target.
pub fn copy_target(t: &Phase63RepairTarget) -> (c: Phase63RepairTarget)
    ensures
        tview(c) == tview(*t),
{
    Phase63RepairTarget {
        region_id: t.region_id.clone(),
        role: t.role,
        contradiction_pressure: t.contradiction_pressure,
        closure_deficit_index: t.closure_deficit_index,
        operator: t.operator,
    }
}

fn target_precedes(a: &Phase63RepairTarget, b: &Phase63RepairTarget, full: bool) -> (r: bool)
    ensures
        r == (if full {
            target_before(tview(*a), tview(*b))
        } else {
            region_before(tview(*a), tview(*b))
        }),
{
    if less_than(a.region_id.as_str(), b.region_id.as_str()) {
        return true;
    }
    if !full || !same_text(&a.region_id, &b.region_id) {
        return false;
    }
    let ka = phase63_repair_operator_sort_key(a.operator);
    let kb = phase63_repair_operator_sort_key(b.operator);
    if ka != kb {
        return ka < kb;
    }
    if a.contradiction_pressure != b.contradiction_pressure {
        return a.contradiction_pressure > b.contradiction_pressure;
    }
    a.closure_deficit_index > b.closure_deficit_index
}

/// A stable sort of targets, by region alone or by the full expansion order.
fn stable_sort_targets(v: &Vec<Phase63RepairTarget>, full: bool) -> (r: Vec<Phase63RepairTarget>)
    ensures
        tviews(r@) == sort_targets(tviews(v@), full),
{
    let ghost vv = tviews(v@);
    let mut out: Vec<Phase63RepairTarget> = Vec::new();
    let mut i: usize = 0;
    assert(vv.subrange(0, 0) =~= Seq::<TView>::empty());
    while i < v.len()
        invariant
            vv == tviews(v@),
            i <= v@.len(),
            tviews(out@) == sort_targets(vv.subrange(0, i as int), full),
        decreases v@.len() - i,
    {
        let x = copy_target(&v[i]);
        let mut p: usize = 0;
        while p < out.len() && !target_precedes(&x, &out[p], full)
            invariant
                p <= out@.len(),
                forall|k: int|
                    0 <= k < p ==> !(if full {
                        target_before(tview(x), #[trigger] tviews(out@)[k])
                    } else {
                        region_before(tview(x), tviews(out@)[k])
                    }),
            decreases out@.len() - p,
        {
            p = p + 1;
        }
        let ghost before = tviews(out@);
        proof {
            lemma_insert_target_at(before, tview(x), full, p as int);
            let t = vv.subrange(0, i + 1);
            assert(t.drop_last() =~= vv.subrange(0, i as int));
            assert(t.last() == tview(x));
        }
        out.insert(p, x);
        assert(tviews(out@) =~= before.insert(p as int, tview(x)));
        i = i + 1;
    }
    assert(vv.subrange(0, v@.len() as int) =~= vv);
    out
}

/// The follow-on targets under a closure deficit, in expansion order.
pub fn phase63_expand_closure_deficit_follow_on_targets(
    targets: Vec<Phase63RepairTarget>,
    r: &Phase63RuntimeSummary,
    regime: &str,
) -> (o: Vec<Phase63RepairTarget>)
    requires
        runtime_fits(rv(*r)),
    ensures
        tviews(o@) == expanded(tviews(targets@), rv(*r), regime@),
{
    if !is_deficit_text(regime) {
        return targets;
    }
    if phase66_continuity_rebased_from_runtime(r) > 0 {
        return targets;
    }
    let ghost base = tviews(targets@);
    let mut acc: Vec<Phase63RepairTarget> = Vec::new();
    let mut c: usize = 0;
    while c < targets.len()
        invariant
            base == tviews(targets@),
            c <= targets@.len(),
            tviews(acc@) == base.subrange(0, c as int),
        decreases targets@.len() - c,
    {
        let ghost before = tviews(acc@);
        let x = copy_target(&targets[c]);
        acc.push(x);
        assert(tviews(acc@) =~= before.push(tview(x)));
        assert(base.subrange(0, c + 1) =~= base.subrange(0, c as int).push(base[c as int]));
        c = c + 1;
    }
    assert(base.subrange(0, base.len() as int) =~= base);
    let mut k: usize = 0;
    while k < targets.len()
        invariant
            base == tviews(targets@),
            runtime_fits(rv(*r)),
            k <= targets@.len(),
            tviews(acc@) == with_follow_ons(base, rv(*r), k as int),
        decreases targets@.len() - k,
    {
        let t = &targets[k];
        assert(tview(*t) == base[k as int]);
        match phase63_follow_on_operator_for_flat_signal(t.operator, r) {
            None => {},
            Some(f) => {
                let ghost accv = tviews(acc@);
                let mut j: usize = 0;
                let mut present = false;
                while j < acc.len()
                    invariant
                        accv == tviews(acc@),
                        j <= acc@.len(),
                        present == exists|q: int| 0 <= q < j && (#[trigger] accv[q]).0 == tview(*t).0 && accv[q].4 == f,
                    decreases acc@.len() - j,
                {
                    if same_text(&acc[j].region_id, &t.region_id) && acc[j].operator == f {
                        present = true;
                        assert(accv[j as int].0 == tview(*t).0 && accv[j as int].4 == f);
                    }
                    j = j + 1;
                }
                if !present {
                    let ghost before = tviews(acc@);
                    let n = Phase63RepairTarget {
                        region_id: t.region_id.clone(),
                        role: t.role,
                        contradiction_pressure: t.contradiction_pressure,
                        closure_deficit_index: t.closure_deficit_index,
                        operator: f,
                    };
                    acc.push(n);
                    assert(tviews(acc@) =~= before.push(tview(n)));
                }
            },
        }
        k = k + 1;
    }
    stable_sort_targets(&acc, true)
}

/// The stubborn-signature two-step, if a bridge region matches.
pub fn phase63_forced_two_step_targets(
    s: &[SemanticConstraint],
    r: &Phase63RuntimeSummary,
    regime: &str,
) -> (o: Option<Vec<Phase63RepairTarget>>)
    requires
        s@.len() <= MAX_CONSTRAINTS,
        runtime_fits(rv(*r)),
        pressures_fit(s@),
    ensures
        match o {
            None => forced_targets(s@, rv(*r), regime@) is None,
            Some(v) => forced_targets(s@, rv(*r), regime@) == Some(tviews(v@)),
        },
{
    if !is_deficit_text(regime) {
        return None;
    }
    let g = phase63_closure_deficit_index(r);
    let subs = distinct_subjects(s);
    let ghost sv = views(subs@);
    proof {
        let v = sorted_subjects(s@);
        assert(strictly_sorted_texts(v) && v.to_set() == subjects_of(s@));
        lemma_strictly_sorted_texts_unique(sv, v);
    }
    let mut k: usize = 0;
    while k < subs.len()
        invariant
            s@.len() <= MAX_CONSTRAINTS,
            runtime_fits(rv(*r)),
            pressures_fit(s@),
            g == deficit_index(rv(*r)),
            is_closure_deficit(regime@),
            sv == views(subs@),
            sv == sorted_subjects(s@),
            sv.to_set() == subjects_of(s@),
            k <= subs@.len(),
            first_forced(sv, s@, rv(*r), 0) == first_forced(sv, s@, rv(*r), k as int),
        decreases subs@.len() - k,
    {
        let y = subs[k].as_str();
        assert(sv[k as int] == y@);
        assert(sv.to_set().contains(sv[k as int]));
        let p = phase63_contradiction_pressure_for_subject(s, y);
        let role = phase63_role_for_subject(s, y);
        let local = g + p / 4;
        let walking = is_text(y, "walking") && p == 127 && local >= 101;
        let stacking = is_text(y, "stacking") && p == 123 && local >= 110;
        if role == Phase63RegionRole::Bridge && p > 0 && (walking || stacking) {
            let first = Phase63RepairTarget {
                region_id: text(y),
                role: Phase63RegionRole::Bridge,
                contradiction_pressure: p,
                closure_deficit_index: local,
                operator: Phase63RepairOperator::ClosureBridge,
            };
            let second = Phase63RepairTarget {
                region_id: text(y),
                role: Phase63RegionRole::Bridge,
                contradiction_pressure: p,
                closure_deficit_index: local,
                operator: Phase63RepairOperator::AnchorReweight,
            };
            proof {
                assert(p == region_pressure(s@, sv[k as int]));
                assert(local == local_deficit(s@, rv(*r), sv[k as int]));
                assert(forced_match(s@, rv(*r), sv[k as int]));
                assert(first_forced(sv, s@, rv(*r), k as int) == Some(sv[k as int]));
            }
            let v = vec![first, second];
            assert(tviews(v@) =~= seq![tview(first), tview(second)]);
            return Some(v);
        }
        k = k + 1;
    }
    None
}


pub open spec fn eview(e: (i32, Phase63RepairTarget)) -> Entry {
    (e.0 as int, tview(e.1))
}

pub open spec fn eviews(es: Seq<(i32, Phase63RepairTarget)>) -> Seq<Entry> {
    es.map_values(|e: (i32, Phase63RepairTarget)| eview(e))
}

fn candidate_ops_exec(
    role: Phase63RegionRole,
    regime: &str,
    supervised: Option<Phase63RepairOperator>,
) -> (v: Vec<Phase63RepairOperator>)
    ensures
        v@ == candidate_ops(role, regime@, supervised),
{
    let mut v: Vec<Phase63RepairOperator> = Vec::new();
    match role {
        Phase63RegionRole::Boundary => {
            v.push(Phase63RepairOperator::BoundaryDampen);
        },
        Phase63RegionRole::Bridge => {
            v.push(Phase63RepairOperator::BoundaryDampen);
            v.push(Phase63RepairOperator::BridgeRebind);
            if is_deficit_text(regime) {
                match supervised {
                    Some(o) => {
                        v.push(o);
                    },
                    None => {
                        v.push(Phase63RepairOperator::ClosureBridge);
                        v.push(Phase63RepairOperator::ContradictionRedirect);
                        v.push(Phase63RepairOperator::AnchorReweight);
                    },
                }
            }
        },
        Phase63RegionRole::Core => {
            v.push(Phase63RepairOperator::CoreStabilize);
        },
    }
    assert(v@ =~= candidate_ops(role, regime@, supervised));
    v
}

/// The ranked candidates of one region.
fn region_entries(
    s: &[SemanticConstraint],
    r: &Phase63RuntimeSummary,
    regime: &str,
    y: &str,
    g: i32,
    supervised: Option<Phase63RepairOperator>,
) -> (v: Vec<(i32, Phase63RepairTarget)>)
    requires
        s@.len() <= MAX_CONSTRAINTS,
        runtime_fits(rv(*r)),
        pressures_fit(s@),
        ranks_fit(s@, rv(*r), regime@),
        subjects_of(s@).contains(y@),
        g == deficit_index(rv(*r)),
        supervised == operator_for_signal(continuity_rebased(rv(*r)), regime@),
    ensures
        eviews(v@) == subject_entries(s@, rv(*r), regime@, y@),
{
    let p = phase63_contradiction_pressure_for_subject(s, y);
    proof {
        lemma_subject_sum_bounds(s@, y@, Metric::RegionPressure);
    }
    let role = phase63_role_for_subject(s, y);
    let d = g + p / 4;
    let lp = phase63_learned_pattern_preference(y, role, p, d);
    let ops = candidate_ops_exec(role, regime, supervised);
    let ghost want = subject_entries(s@, rv(*r), regime@, y@);
    let mut v: Vec<(i32, Phase63RepairTarget)> = Vec::new();
    let mut i: usize = 0;
    while i < ops.len()
        invariant
            s@.len() <= MAX_CONSTRAINTS,
            ranks_fit(s@, rv(*r), regime@),
            subjects_of(s@).contains(y@),
            p == region_pressure(s@, y@),
            role == role_of(s@, y@),
            d == local_deficit(s@, rv(*r), y@),
            lp == learned_preference(y@, role, p as int, d as int),
            ops@ == ops_of(s@, rv(*r), regime@, y@),
            want == subject_entries(s@, rv(*r), regime@, y@),
            i <= ops@.len(),
            eviews(v@) == want.subrange(0, i as int),
        decreases ops@.len() - i,
    {
        let op = ops[i];
        let bias = phase63_operator_preference_bias(y, role, d, op, lp, regime);
        assert(rank_fits(s@, rv(*r), regime@, y@, op));
        let rank = p + d + lp + bias;
        let t = Phase63RepairTarget {
            region_id: text(y),
            role,
            contradiction_pressure: p,
            closure_deficit_index: d,
            operator: op,
        };
        let ghost before = eviews(v@);
        v.push((rank, t));
        assert(eview((rank, t)) == want[i as int]);
        assert(eviews(v@) =~= before.push(eview((rank, t))));
        i = i + 1;
        assert(want.subrange(0, i as int) =~= want.subrange(0, i - 1).push(want[i - 1]));
    }
    assert(want.subrange(0, ops@.len() as int) =~= want);
    v
}

/// The repair targets for the constraints under a runtime summary and
/// regime.
pub fn select_phase63_repair_targets(
    s: &[SemanticConstraint],
    r: &Phase63RuntimeSummary,
    regime: &str,
) -> (o: Vec<Phase63RepairTarget>)
    requires
        s@.len() <= MAX_CONSTRAINTS,
        runtime_fits(rv(*r)),
        pressures_fit(s@),
        ranks_fit(s@, rv(*r), regime@),
    ensures
        tviews(o@) == selected_targets(s@, rv(*r), regime@),
{
    if let Some(forced) = phase63_forced_two_step_targets(s, r, regime) {
        return phase63_expand_closure_deficit_follow_on_targets(forced, r, regime);
    }
    let g = phase63_closure_deficit_index(r);
    let rebased = phase66_continuity_rebased_from_runtime(r);
    let supervised = phase63_operator_from_rebased_signal(rebased, regime);
    let subs = distinct_subjects(s);
    let ghost sv = views(subs@);
    proof {
        let v = sorted_subjects(s@);
        assert(strictly_sorted_texts(v) && v.to_set() == subjects_of(s@));
        lemma_strictly_sorted_texts_unique(sv, v);
    }
    let mut all: Vec<(i32, Phase63RepairTarget)> = Vec::new();
    let mut k: usize = 0;
    assert(sv.subrange(0, 0) =~= Seq::<Seq<char>>::empty());
    while k < subs.len()
        invariant
            s@.len() <= MAX_CONSTRAINTS,
            runtime_fits(rv(*r)),
            pressures_fit(s@),
            ranks_fit(s@, rv(*r), regime@),
            g == deficit_index(rv(*r)),
            supervised == operator_for_signal(continuity_rebased(rv(*r)), regime@),
            sv == views(subs@),
            sv.to_set() == subjects_of(s@),
            k <= subs@.len(),
            eviews(all@) == all_entries(sv.subrange(0, k as int), s@, rv(*r), regime@),
        decreases subs@.len() - k,
    {
        assert(sv[k as int] == subs@[k as int]@);
        assert(sv.to_set().contains(sv[k as int]));
        let es = region_entries(s, r, regime, subs[k].as_str(), g, supervised);
        let ghost base = eviews(all@);
        let mut j: usize = 0;
        while j < es.len()
            invariant
                j <= es@.len(),
                eviews(all@) == base + eviews(es@).subrange(0, j as int),
            decreases es@.len() - j,
        {
            let e = (es[j].0, copy_target(&es[j].1));
            let ghost b = eviews(all@);
            all.push(e);
            assert(eviews(all@) =~= b.push(eview(e)));
            j = j + 1;
            assert(eviews(es@).subrange(0, j as int) =~= eviews(es@).subrange(0, j - 1).push(eviews(es@)[j - 1]));
        }
        assert(eviews(es@).subrange(0, es@.len() as int) =~= eviews(es@));
        let ghost t = sv.subrange(0, k + 1);
        assert(t.drop_last() =~= sv.subrange(0, k as int));
        assert(t.last() == sv[k as int]);
        k = k + 1;
    }
    assert(sv.subrange(0, sv.len() as int) =~= sv);
    let ghost allv = eviews(all@);
    let mut kept: Vec<(i32, Phase63RepairTarget)> = Vec::new();
    let mut i: usize = 0;
    assert(allv.subrange(0, 0) =~= Seq::<Entry>::empty());
    while i < all.len()
        invariant
            allv == eviews(all@),
            i <= all@.len(),
            eviews(kept@) == positive(allv.subrange(0, i as int)),
        decreases all@.len() - i,
    {
        let ghost t = allv.subrange(0, i + 1);
        assert(t.drop_last() =~= allv.subrange(0, i as int));
        assert(t.last() == eview(all@[i as int]));
        if all[i].0 > 0 && all[i].1.contradiction_pressure > 0 {
            let e = (all[i].0, copy_target(&all[i].1));
            let ghost b = eviews(kept@);
            kept.push(e);
            assert(eviews(kept@) =~= b.push(eview(e)));
        }
        i = i + 1;
    }
    assert(allv.subrange(0, allv.len() as int) =~= allv);
    let ghost kv = eviews(kept@);
    let mut ranked: Vec<(i32, Phase63RepairTarget)> = Vec::new();
    let mut q: usize = 0;
    assert(kv.subrange(0, 0) =~= Seq::<Entry>::empty());
    while q < kept.len()
        invariant
            kv == eviews(kept@),
            q <= kept@.len(),
            eviews(ranked@) == sort_entries(kv.subrange(0, q as int)),
        decreases kept@.len() - q,
    {
        let x = (kept[q].0, copy_target(&kept[q].1));
        let mut p: usize = 0;
        while p < ranked.len() && !(x.0 > ranked[p].0 || (x.0 == ranked[p].0 && less_than(
            x.1.region_id.as_str(),
            ranked[p].1.region_id.as_str(),
        )))
            invariant
                p <= ranked@.len(),
                forall|z: int| 0 <= z < p ==> !entry_before(eview(x), #[trigger] eviews(ranked@)[z]),
            decreases ranked@.len() - p,
        {
            assert(eviews(ranked@)[p as int] == eview(ranked@[p as int]));
            p = p + 1;
        }
        let ghost before = eviews(ranked@);
        proof {
            if p < ranked@.len() {
                assert(before[p as int] == eview(ranked@[p as int]));
            }
            lemma_insert_entry_at(before, eview(x), p as int);
            let t = kv.subrange(0, q + 1);
            assert(t.drop_last() =~= kv.subrange(0, q as int));
            assert(t.last() == eview(x));
        }
        ranked.insert(p, x);
        assert(eviews(ranked@) =~= before.insert(p as int, eview(x)));
        q = q + 1;
    }
    assert(kv.subrange(0, kv.len() as int) =~= kv);
    let ghost rv = eviews(ranked@);
    let n = if ranked.len() < 2 {
        ranked.len()
    } else {
        2
    };
    let mut top: Vec<Phase63RepairTarget> = Vec::new();
    let mut c: usize = 0;
    while c < n
        invariant
            rv == eviews(ranked@),
            n <= ranked@.len(),
            c <= n,
            tviews(top@) == rv.take(c as int).map_values(|e: Entry| e.1),
        decreases n - c,
    {
        let t = copy_target(&ranked[c].1);
        let ghost b = tviews(top@);
        top.push(t);
        assert(tviews(top@) =~= b.push(tview(t)));
        c = c + 1;
        assert(rv.take(c as int).map_values(|e: Entry| e.1) =~= rv.take(c - 1).map_values(|e: Entry| e.1).push(
            rv[c - 1].1,
        ));
    }
    let ordered = stable_sort_targets(&top, false);
    phase63_expand_closure_deficit_follow_on_targets(ordered, r, regime)
}


// ── repair kernel ────────────────────────────────────────────────────────────

pub const PHASE63_BOUNDARY_DAMPEN_PREDICATE: &'static str = "phase63/topology_boundary_dampen";
pub const PHASE63_BRIDGE_REBIND_PREDICATE: &'static str = "phase63/topology_bridge_rebind";
pub const PHASE63_CORE_STABILIZE_PREDICATE: &'static str = "phase63/topology_core_stabilize";
pub const PHASE63_CLOSURE_ENERGY_REINFORCE_PREDICATE: &'static str = "phase63/closure_energy_reinforce";
pub const PHASE63_CONTINUITY_CLOSURE_LIFT_PREDICATE: &'static str = "phase63/continuity_closure_lift";
pub const PHASE63_CONTINUITY_SURGE_PREDICATE: &'static str = "phase63/continuity_surge";
pub const PHASE63_CLOSURE_BRIDGE_PREDICATE: &'static str = "phase63/closure_bridge";
pub const PHASE63_CONTRADICTION_REDIRECT_PREDICATE: &'static str = "phase63/contradiction_redirect";
pub const PHASE63_ANCHOR_REWEIGHT_PREDICATE: &'static str = "phase63/anchor_reweight";

fn operator_predicate_text(op: Phase63RepairOperator) -> (p: &'static str)
    ensures
        p@ == operator_predicate(op),
{
    match op {
        Phase63RepairOperator::BoundaryDampen => PHASE63_BOUNDARY_DAMPEN_PREDICATE,
        Phase63RepairOperator::BridgeRebind => PHASE63_BRIDGE_REBIND_PREDICATE,
        Phase63RepairOperator::CoreStabilize => PHASE63_CORE_STABILIZE_PREDICATE,
        Phase63RepairOperator::ClosureBridge => PHASE63_CLOSURE_BRIDGE_PREDICATE,
        Phase63RepairOperator::ContradictionRedirect => PHASE63_CONTRADICTION_REDIRECT_PREDICATE,
        Phase63RepairOperator::AnchorReweight => PHASE63_ANCHOR_REWEIGHT_PREDICATE,
    }
}

fn find_subject_predicate(out: &Vec<SemanticConstraint>, subject: &str, predicate: &str) -> (b: bool)
    ensures
        b == has_subject_predicate(cviews(out@), subject@, predicate@),
{
    let ghost v = cviews(out@);
    let mut i: usize = 0;
    while i < out.len()
        invariant
            v == cviews(out@),
            i <= out@.len(),
            forall|j: int| 0 <= j < i ==> !((#[trigger] v[j]).0 == subject@ && v[j].1 == predicate@),
        decreases out@.len() - i,
    {
        assert(v[i as int] == cview(out@[i as int]));
        if same_text(&out[i].subject, &text(subject)) && same_text(&out[i].predicate, &text(predicate)) {
            return true;
        }
        i = i + 1;
    }
    false
}

/// Whether the continuity lift applies.
pub fn phase63_should_apply_continuity_lift(regime: &str, r: &Phase63RuntimeSummary) -> (b: bool)
    requires
        runtime_fits(rv(*r)),
    ensures
        b == lift_enabled(regime@, rv(*r)),
{
    is_deficit_text(regime) && r.region_delta() >= 3 && r.continuity_delta() == 0
}

/// Whether the continuity surge applies to a region.
pub fn phase63_should_apply_continuity_surge(regime: &str, r: &Phase63RuntimeSummary, region: &str) -> (b: bool)
    requires
        runtime_fits(rv(*r)),
    ensures
        b == surge_enabled(regime@, rv(*r), region@),
{
    is_deficit_text(regime) && r.continuity_delta() == 0 && ((is_text(region, "walking") && contains_text(
        r.holdout_id.as_str(),
        "spiral_lurch",
    )) || (is_text(region, "stacking") && contains_text(r.holdout_id.as_str(), "blind_regrasp")))
}

/// The best other anchor, else the best anchor.
pub fn select_closure_bridge_partner(s: &[SemanticConstraint], region: &str) -> (r: Option<String>)
    requires
        s@.len() <= MAX_CONSTRAINTS,
    ensures
        match r {
            Some(x) => best(Selector::AnchorExcluding, s@, region@) == Some(x@) || (best(
                Selector::AnchorExcluding,
                s@,
                region@,
            ) is None && best(Selector::Anchor, s@, Seq::empty()) == Some(x@)),
            None => best(Selector::AnchorExcluding, s@, region@) is None && best(Selector::Anchor, s@, Seq::empty()) is None,
        },
{
    match select_highest_coherence_anchor_excluding(s, region) {
        Some(a) => Some(a),
        None => select_highest_coherence_anchor(s),
    }
}

fn partner_text(s: &[SemanticConstraint], region: &str) -> (p: String)
    requires
        s@.len() <= MAX_CONSTRAINTS,
    ensures
        p@ == partner_or_self(s@, region@),
{
    match select_closure_bridge_partner(s, region) {
        Some(a) => a,
        None => text(region),
    }
}

fn push_repair(out: &mut Vec<SemanticConstraint>, s: &[SemanticConstraint], bw: u8, region: &str, op: Phase63RepairOperator)
    requires
        s@.len() <= MAX_CONSTRAINTS,
    ensures
        cviews(final(out)@) == cviews(old(out)@) + repair_constraints(s@, bw, region@, op),
{
    let ghost before = cviews(out@);
    match op {
        Phase63RepairOperator::BoundaryDampen => {
            push_view(out, assertion_constraint(region, PHASE63_BOUNDARY_DAMPEN_PREDICATE, saturating_add(bw, 2)));
        },
        Phase63RepairOperator::BridgeRebind => {
            let object = select_highest_coherence_anchor_excluding(s, region);
            let c = SemanticConstraint {
                subject: text(region),
                predicate: text(PHASE63_BRIDGE_REBIND_PREDICATE),
                object,
                affirmed: true,
                kind: ConstraintKind::Link,
                weight: saturating_add(bw, 1),
            };
            push_view(out, c);
        },
        Phase63RepairOperator::CoreStabilize => {
            push_view(out, assertion_constraint(region, PHASE63_CORE_STABILIZE_PREDICATE, bw));
        },
        Phase63RepairOperator::ClosureBridge => {
            let partner = partner_text(s, region);
            push_view(
                out,
                link_constraint(region, PHASE63_CLOSURE_BRIDGE_PREDICATE, partner.as_str(), saturating_add(bw, 4)),
            );
            push_view(
                out,
                assertion_constraint(region, PHASE63_CLOSURE_ENERGY_REINFORCE_PREDICATE, saturating_add(bw, 4)),
            );
        },
        Phase63RepairOperator::ContradictionRedirect => {
            let anchor = partner_text(s, region);
            push_view(
                out,
                link_constraint(
                    region,
                    PHASE63_CONTRADICTION_REDIRECT_PREDICATE,
                    anchor.as_str(),
                    saturating_add(bw, 3),
                ),
            );
            push_view(
                out,
                assertion_constraint(region, PHASE63_CLOSURE_ENERGY_REINFORCE_PREDICATE, saturating_add(bw, 2)),
            );
        },
        Phase63RepairOperator::AnchorReweight => {
            let anchor = match select_highest_coherence_anchor(s) {
                Some(a) => a,
                None => text(region),
            };
            push_view(
                out,
                link_constraint(region, PHASE63_ANCHOR_REWEIGHT_PREDICATE, anchor.as_str(), saturating_add(bw, 2)),
            );
            push_view(
                out,
                assertion_constraint(region, PHASE63_CLOSURE_ENERGY_REINFORCE_PREDICATE, saturating_add(bw, 1)),
            );
        },
    }
    assert(cviews(out@) =~= before + repair_constraints(s@, bw, region@, op));
}

/// Applies a repair plan: at most three targets (at least one), each once;
/// returns the constraints and how many targets were applied.
pub fn apply_phase63_repair_plan(
    s: &[SemanticConstraint],
    config: Phase62StructuralConfig,
    plan: &Phase63RepairPlan,
    regime: &str,
    r: &Phase63RuntimeSummary,
) -> (o: (Vec<SemanticConstraint>, usize))
    requires
        s@.len() <= MAX_CONSTRAINTS,
        runtime_fits(rv(*r)),
    ensures
        (cviews(o.0@), o.1 as int) == applied_plan(s@, config, tviews(plan.targets@), regime@, rv(*r)),
{
    let ghost tv = tviews(plan.targets@);
    let bw = config.bridge_weight;
    let mut out = copy_constraints(s);
    let mut applied: usize = 0;
    let lift = phase63_should_apply_continuity_lift(regime, r);
    let mut lift_applied = false;
    let max_generated = cap(config, 3);
    let n = if plan.targets.len() < max_generated {
        plan.targets.len()
    } else {
        max_generated
    };
    let mut k: usize = 0;
    while k < n
        invariant
            s@.len() <= MAX_CONSTRAINTS,
            runtime_fits(rv(*r)),
            tv == tviews(plan.targets@),
            bw == config.bridge_weight,
            lift == lift_enabled(regime@, rv(*r)),
            n <= plan.targets@.len(),
            k <= n,
            applied <= k,
            (cviews(out@), applied as int, lift_applied) == repair_run(s@, bw, tv, regime@, rv(*r), k as int),
        decreases n - k,
    {
        let t = &plan.targets[k];
        assert(tview(*t) == tv[k as int]);
        let region = t.region_id.as_str();
        let present = find_subject_predicate(&out, region, operator_predicate_text(t.operator)) || (t.operator
            == Phase63RepairOperator::AnchorReweight && find_subject_predicate(
            &out,
            region,
            PHASE63_CONTINUITY_SURGE_PREDICATE,
        ));
        if !present {
            push_repair(&mut out, s, bw, region, t.operator);
            if !find_subject_predicate(&out, region, PHASE63_CLOSURE_ENERGY_REINFORCE_PREDICATE) {
                let w = if is_deficit_text(regime) {
                    saturating_add(bw, 3)
                } else {
                    saturating_add(bw, 1)
                };
                push_view(&mut out, assertion_constraint(region, PHASE63_CLOSURE_ENERGY_REINFORCE_PREDICATE, w));
            }
            let lift_now = lift && !lift_applied && !find_subject_predicate(
                &out,
                region,
                PHASE63_CONTINUITY_CLOSURE_LIFT_PREDICATE,
            );
            if lift_now {
                push_view(
                    &mut out,
                    assertion_constraint(region, PHASE63_CONTINUITY_CLOSURE_LIFT_PREDICATE, saturating_add(bw, 4)),
                );
                lift_applied = true;
            }
            if phase63_should_apply_continuity_surge(regime, r, region) && !find_subject_predicate(
                &out,
                region,
                PHASE63_CONTINUITY_SURGE_PREDICATE,
            ) {
                push_view(
                    &mut out,
                    assertion_constraint(region, PHASE63_CONTINUITY_SURGE_PREDICATE, saturating_add(bw, 6)),
                );
            }
            applied = applied + 1;
        }
        k = k + 1;
    }
    (out, applied)
}


// ── telemetry kernel ─────────────────────────────────────────────────────────

pub open spec fn aviews(v: Seq<(String, String)>) -> Seq<Assignment> {
    v.map_values(|a: (String, String)| (a.0@, a.1@))
}

pub open spec fn plan_views(p: Option<Phase63RepairPlan>) -> Option<Seq<TView>> {
    match p {
        Some(p) => Some(tviews(p.targets@)),
        None => None,
    }
}

/// A repair plan over the targets.
pub fn scaffold_topology_guided_contradiction_repair_v63_plan(targets: Vec<Phase63RepairTarget>) -> (p: Phase63RepairPlan)
    ensures
        p.kind == Phase63Kind::TopologyGuidedContradictionRepair,
        p.targets@ == targets@,
{
    Phase63RepairPlan { kind: Phase63Kind::TopologyGuidedContradictionRepair, targets }
}

/// How the plan routes its repair.
pub fn phase63_route_style(plan: &Phase63RepairPlan) -> (s: &'static str)
    ensures
        s@ == route_style(tviews(plan.targets@)),
{
    let ts = &plan.targets;
    let ghost tv = tviews(ts@);
    if ts.len() == 2 {
        assert(tview(ts@[0]) == tv[0] && tview(ts@[1]) == tv[1]);
        let same = same_text(&ts[0].region_id, &ts[1].region_id);
        if same && ts[0].operator == Phase63RepairOperator::ClosureBridge && ts[1].operator
            == Phase63RepairOperator::AnchorReweight {
            return "forced_two_step";
        }
        if same && ts[0].operator == Phase63RepairOperator::ClosureBridge && ts[1].operator
            == Phase63RepairOperator::ContradictionRedirect {
            return "learned_two_step";
        }
        return "standard";
    }
    if ts.len() == 1 {
        assert(tview(ts@[0]) == tv[0]);
        let op = ts[0].operator;
        if op == Phase63RepairOperator::ClosureBridge || op == Phase63RepairOperator::ContradictionRedirect || op
            == Phase63RepairOperator::AnchorReweight {
            return "closure_deficit_bridge";
        }
    }
    "standard"
}

/// Why the continuity lift is off, or `enabled`.
pub fn phase63_continuity_lift_blocker(regime: &str, r: &Phase63RuntimeSummary) -> (s: &'static str)
    requires
        runtime_fits(rv(*r)),
    ensures
        s@ == lift_blocker(regime@, rv(*r)),
{
    if !is_deficit_text(regime) {
        "regime!=closure_deficit"
    } else if r.region_delta() < 3 {
        "region_delta<3"
    } else if r.continuity_delta() != 0 {
        "continuity_delta!=0"
    } else {
        "enabled"
    }
}

fn push_deltas(out: &mut String, r: &Phase63RuntimeSummary)
    requires
        runtime_fits(rv(*r)),
    ensures
        final(out)@ == old(out)@ + deltas_text(rv(*r)),
{
    push_str(out, " continuity_delta=");
    push_i64(out, r.continuity_delta() as i64);
    push_str(out, " external_delta=");
    push_i64(out, r.external_delta() as i64);
    push_str(out, " region_delta=");
    push_i64(out, r.region_delta() as i64);
    push_str(out, " anchor_delta=");
    push_i64(out, r.anchor_delta() as i64);
}

/// The diagnostic line of a plan for a holdout.
pub fn phase63_diagnostic_line(
    plan: &Phase63RepairPlan,
    regime: &str,
    r: &Phase63RuntimeSummary,
    holdout: &str,
) -> (line: String)
    requires
        runtime_fits(rv(*r)),
    ensures
        line@ == diagnostic_line(tviews(plan.targets@), regime@, rv(*r), holdout@),
{
    let route = phase63_route_style(plan);
    let mut line = text("holdout_id=");
    push_str(&mut line, holdout);
    push_str(&mut line, " regime=");
    push_str(&mut line, regime);
    push_str(&mut line, " route_style=");
    push_str(&mut line, route);
    push_str(&mut line, " continuity_lift_blocker=");
    push_str(&mut line, phase63_continuity_lift_blocker(regime, r));
    push_str(&mut line, " forced_signature=");
    let forced = plan.targets.len() == 2 && same_text(&plan.targets[0].region_id, &plan.targets[1].region_id)
        && plan.targets[0].operator == Phase63RepairOperator::ClosureBridge && plan.targets[1].operator
        == Phase63RepairOperator::AnchorReweight;
    proof {
        if plan.targets@.len() == 2 {
            assert(tview(plan.targets@[0]) == tviews(plan.targets@)[0]);
            assert(tview(plan.targets@[1]) == tviews(plan.targets@)[1]);
        }
    }
    if forced {
        push_str(&mut line, plan.targets[0].region_id.as_str());
        push_str(&mut line, ":");
        push_usize(&mut line, plan.targets.len());
    } else {
        push_str(&mut line, "none");
    }
    push_deltas(&mut line, r);
    line
}

fn role_text(role: Phase63RegionRole) -> (s: &'static str)
    ensures
        s@ == role_name(role),
{
    match role {
        Phase63RegionRole::Boundary => "Boundary",
        Phase63RegionRole::Bridge => "Bridge",
        Phase63RegionRole::Core => "Core",
    }
}

fn operator_text(op: Phase63RepairOperator) -> (s: &'static str)
    ensures
        s@ == operator_name(op),
{
    match op {
        Phase63RepairOperator::BoundaryDampen => "BoundaryDampen",
        Phase63RepairOperator::BridgeRebind => "BridgeRebind",
        Phase63RepairOperator::CoreStabilize => "CoreStabilize",
        Phase63RepairOperator::ClosureBridge => "ClosureBridge",
        Phase63RepairOperator::ContradictionRedirect => "ContradictionRedirect",
        Phase63RepairOperator::AnchorReweight => "AnchorReweight",
    }
}

/// The published plan line.
pub fn phase63_plan_line(plan: &Phase63RepairPlan) -> (line: String)
    ensures
        line@ == plan_line(tviews(plan.targets@)),
{
    let ghost tv = tviews(plan.targets@);
    let mut parts: Vec<String> = Vec::new();
    let mut i: usize = 0;
    while i < plan.targets.len()
        invariant
            tv == tviews(plan.targets@),
            i <= plan.targets@.len(),
            views(parts@) == tv.subrange(0, i as int).map_values(|t: TView| target_line(t)),
        decreases plan.targets@.len() - i,
    {
        let t = &plan.targets[i];
        assert(tview(*t) == tv[i as int]);
        let mut p = text(t.region_id.as_str());
        push_str(&mut p, ":");
        push_str(&mut p, role_text(t.role));
        push_str(&mut p, ":");
        push_str(&mut p, operator_text(t.operator));
        push_str(&mut p, ":p");
        push_i64(&mut p, t.contradiction_pressure as i64);
        push_str(&mut p, ":d");
        push_i64(&mut p, t.closure_deficit_index as i64);
        let ghost before = views(parts@);
        parts.push(p);
        assert(views(parts@) =~= before.push(p@));
        i = i + 1;
        assert(tv.subrange(0, i as int).map_values(|t: TView| target_line(t)) =~= tv.subrange(0, i - 1).map_values(
            |t: TView| target_line(t),
        ).push(target_line(tv[i - 1])));
    }
    assert(tv.subrange(0, tv.len() as int) =~= tv);
    let mut line = text("kind=topology_guided_contradiction_repair targets=");
    if parts.len() == 0 {
        push_str(&mut line, "none");
    } else {
        let joined = crate::text::join_strings(&parts, "|");
        push_str(&mut line, joined.as_str());
    }
    line
}

/// The telemetry line of a repair run.
pub fn phase63_telemetry_line(t: &Phase63Telemetry) -> (line: String)
    ensures
        line@ == "holdout_id="@ + t.holdout_id@ + " selected_targets="@ + dec_nat(t.selected_targets as nat)
            + " applied_targets="@ + dec_nat(t.applied_targets as nat) + " skipped_reason="@ + (match t.skipped_reason {
            Some(x) => x@,
            None => "none"@,
        }) + " supervisor_intensity="@ + dec_int(t.supervisor_intensity as int) + " problematic="@ + bool_text(
            t.problematic,
        ) + " continuity_delta="@ + dec_int(t.continuity_delta as int) + " external_delta="@ + dec_int(
            t.external_delta as int,
        ) + " region_delta="@ + dec_int(t.region_delta as int) + " anchor_delta="@ + dec_int(t.anchor_delta as int),
{
    let mut line = text("holdout_id=");
    push_str(&mut line, t.holdout_id.as_str());
    push_str(&mut line, " selected_targets=");
    push_usize(&mut line, t.selected_targets);
    push_str(&mut line, " applied_targets=");
    push_usize(&mut line, t.applied_targets);
    push_str(&mut line, " skipped_reason=");
    match &t.skipped_reason {
        Some(x) => push_str(&mut line, x.as_str()),
        None => push_str(&mut line, "none"),
    }
    push_str(&mut line, " supervisor_intensity=");
    push_i64(&mut line, t.supervisor_intensity as i64);
    push_str(&mut line, " problematic=");
    push_bool(&mut line, t.problematic);
    push_str(&mut line, " continuity_delta=");
    push_i64(&mut line, t.continuity_delta as i64);
    push_str(&mut line, " external_delta=");
    push_i64(&mut line, t.external_delta as i64);
    push_str(&mut line, " region_delta=");
    push_i64(&mut line, t.region_delta as i64);
    push_str(&mut line, " anchor_delta=");
    push_i64(&mut line, t.anchor_delta as i64);
    line
}

fn assignment(name: &str, value: String) -> (a: (String, String))
    ensures
        a.0@ == name@,
        a.1@ == value@,
{
    (text(name), value)
}

/// The assignments published for a skipped repair.
pub fn phase63_skip_assignments(holdout: &str, reason: &str, diagnostic: &str) -> (v: Vec<(String, String)>)
    ensures
        aviews(v@) == skip_assignments(holdout@, reason@, diagnostic@),
{
    let mut line = text("holdout_id=");
    push_str(&mut line, holdout);
    push_str(&mut line, " selected_targets=0 applied_targets=0 skipped_reason=");
    push_str(&mut line, reason);
    push_str(
        &mut line,
        " supervisor_intensity=0 problematic=false continuity_delta=0 external_delta=0 region_delta=0 anchor_delta=0",
    );
    let v = vec![
        assignment("GORT_PHASE63_PLAN", text("kind=topology_guided_contradiction_repair targets=none")),
        assignment("GORT_PHASE63_TELEMETRY", line),
        assignment("GORT_PHASE63_DIAGNOSTIC", text(diagnostic)),
        assignment("GORT_PHASE63_REGIME", text("unknown")),
    ];
    assert(aviews(v@) =~= skip_assignments(holdout@, reason@, diagnostic@));
    v
}

fn append_assignments(out: &mut Vec<(String, String)>, more: Vec<(String, String)>)
    ensures
        aviews(final(out)@) == aviews(old(out)@) + aviews(more@),
{
    let ghost start = aviews(out@);
    let mut i: usize = 0;
    while i < more.len()
        invariant
            i <= more@.len(),
            aviews(out@) == start + aviews(more@).subrange(0, i as int),
        decreases more@.len() - i,
    {
        let a = (more[i].0.clone(), more[i].1.clone());
        let ghost b = aviews(out@);
        out.push(a);
        assert(aviews(out@) =~= b.push((a.0@, a.1@)));
        i = i + 1;
        assert(aviews(more@).subrange(0, i as int) =~= aviews(more@).subrange(0, i - 1).push(aviews(more@)[i - 1]));
    }
    assert(aviews(more@).subrange(0, more@.len() as int) =~= aviews(more@));
}

/// The plan and regime to use: the cached ones when stored for this
/// holdout, else the canonical ones (with the assignments that record them
/// and the plan to store).
pub fn phase63_canonical_plan_and_regime(
    s: &[SemanticConstraint],
    r: &Phase63RuntimeSummary,
    cached_target: &Option<String>,
    cached_plan: &Option<Phase63RepairPlan>,
    cached_regime: &Option<String>,
) -> (o: (Phase63RepairPlan, String, Vec<(String, String)>, bool))
    requires
        s@.len() <= MAX_CONSTRAINTS,
        runtime_fits(rv(*r)),
        pressures_fit(s@),
        ranks_fit(s@, rv(*r), regime_of(rv(*r))),
    ensures
        ({
            let c = plan_choice(
                s@,
                rv(*r),
                match *cached_target {
                    Some(x) => Some(x@),
                    None => None,
                },
                plan_views(*cached_plan),
                match *cached_regime {
                    Some(x) => Some(x@),
                    None => None,
                },
            );
            &&& tviews(o.0.targets@) == c.0
            &&& o.1@ == c.1
            &&& o.3 == c.2
            &&& aviews(o.2@) == if c.2 {
                seq![("GORT_PHASE63_CANONICAL_TARGET"@, r.holdout_id@), ("GORT_PHASE63_CANONICAL_REGIME"@, c.1)]
            } else {
                Seq::<Assignment>::empty()
            }
        }),
{
    let matches = match cached_target {
        Some(t) => same_text(t, &r.holdout_id),
        None => false,
    };
    if matches {
        match (cached_plan, cached_regime) {
            (Some(p), Some(g)) => {
                if trim_text(g.as_str()).unicode_len() > 0 {
                    let mut targets: Vec<Phase63RepairTarget> = Vec::new();
                    let mut i: usize = 0;
                    while i < p.targets.len()
                        invariant
                            i <= p.targets@.len(),
                            tviews(targets@) == tviews(p.targets@).subrange(0, i as int),
                        decreases p.targets@.len() - i,
                    {
                        let x = copy_target(&p.targets[i]);
                        let ghost b = tviews(targets@);
                        targets.push(x);
                        assert(tviews(targets@) =~= b.push(tview(x)));
                        i = i + 1;
                        assert(tviews(p.targets@).subrange(0, i as int) =~= tviews(p.targets@).subrange(0, i - 1).push(
                            tviews(p.targets@)[i - 1],
                        ));
                    }
                    assert(tviews(p.targets@).subrange(0, p.targets@.len() as int) =~= tviews(p.targets@));
                    let plan = scaffold_topology_guided_contradiction_repair_v63_plan(targets);
                    let v: Vec<(String, String)> = Vec::new();
                    assert(aviews(v@) =~= Seq::<Assignment>::empty());
                    return (plan, g.clone(), v, false);
                }
            },
            _ => {},
        }
    }
    let regime = classify_phase63_regime(r);
    let targets = select_phase63_repair_targets(s, r, regime.as_str());
    let plan = scaffold_topology_guided_contradiction_repair_v63_plan(targets);
    let v = vec![
        assignment("GORT_PHASE63_CANONICAL_TARGET", r.holdout_id.clone()),
        assignment("GORT_PHASE63_CANONICAL_REGIME", regime.clone()),
    ];
    assert(aviews(v@) =~= seq![("GORT_PHASE63_CANONICAL_TARGET"@, r.holdout_id@), ("GORT_PHASE63_CANONICAL_REGIME"@, regime@)]);
    (plan, regime, v, true)
}

/// The topology-guided repair for a holdout: returns the constraints, the
/// report, the environment assignments to publish, and the canonical plan
/// to store where one was computed.
pub fn scaffold_topology_guided_contradiction_repair_v63(
    s: &[SemanticConstraint],
    config: Phase62StructuralConfig,
    target: &str,
    runtime: Option<Phase62RuntimeSummary>,
    cached_target: &Option<String>,
    cached_plan: &Option<Phase63RepairPlan>,
    cached_regime: &Option<String>,
) -> (o: (Vec<SemanticConstraint>, Phase62StructuralReport, Vec<(String, String)>, Option<Phase63RepairPlan>))
    requires
        s@.len() <= MAX_CONSTRAINTS,
        runtime matches Some(rt) ==> repair_inputs_fit(s@, rt, target@),
    ensures
        ({
            let want = topology_repair(
                s@,
                config,
                target@,
                match runtime {
                    Some(rt) => Some(from62(rt, target@)),
                    None => None,
                },
                match *cached_target {
                    Some(x) => Some(x@),
                    None => None,
                },
                plan_views(*cached_plan),
                match *cached_regime {
                    Some(x) => Some(x@),
                    None => None,
                },
            );
            &&& probe_view((o.0, o.1)) == want.0
            &&& aviews(o.2@) == want.1
            &&& plan_views(o.3) == want.2
        }),
{
    let rt = match runtime {
        Some(rt) => rt,
        None => {
            let v = phase63_skip_assignments(
                target,
                "missing_runtime_summary",
                "holdout_id=unknown regime=unknown route_style=none continuity_lift_blocker=missing_runtime_summary forced_signature=none continuity_delta=0 external_delta=0 region_delta=0 anchor_delta=0",
            );
            let mut note = text("phase63 topology repair skipped for target ");
            push_str(&mut note, target);
            push_str(&mut note, ": missing runtime summary");
            return (
                crate::cognition::phase62_structural_experiment::copy_constraints(s),
                Phase62StructuralReport { applied: false, generated_constraints: 0, note },
                v,
                None,
            );
        },
    };
    let r = phase63_runtime_summary_from_phase62(rt, target);
    let (plan, regime, canonical, computed) = phase63_canonical_plan_and_regime(
        s,
        &r,
        cached_target,
        cached_plan,
        cached_regime,
    );
    let diagnostic = phase63_diagnostic_line(&plan, regime.as_str(), &r, target);
    let mut assignments = canonical;
    let stored = if computed {
        let mut targets: Vec<Phase63RepairTarget> = Vec::new();
        let mut i: usize = 0;
        while i < plan.targets.len()
            invariant
                i <= plan.targets@.len(),
                tviews(targets@) == tviews(plan.targets@).subrange(0, i as int),
            decreases plan.targets@.len() - i,
        {
            let x = copy_target(&plan.targets[i]);
            let ghost b = tviews(targets@);
            targets.push(x);
            assert(tviews(targets@) =~= b.push(tview(x)));
            i = i + 1;
            assert(tviews(plan.targets@).subrange(0, i as int) =~= tviews(plan.targets@).subrange(0, i - 1).push(
                tviews(plan.targets@)[i - 1],
            ));
        }
        assert(tviews(plan.targets@).subrange(0, plan.targets@.len() as int) =~= tviews(plan.targets@));
        Some(scaffold_topology_guided_contradiction_repair_v63_plan(targets))
    } else {
        None
    };
    if plan.targets.len() == 0 {
        append_assignments(&mut assignments, phase63_skip_assignments(target, "no_targets", diagnostic.as_str()));
        let mut note = text("phase63 topology repair skipped for target ");
        push_str(&mut note, target);
        push_str(&mut note, ": no repair targets");
        return (
            crate::cognition::phase62_structural_experiment::copy_constraints(s),
            Phase62StructuralReport { applied: false, generated_constraints: 0, note },
            assignments,
            stored,
        );
    }
    let (output, applied) = apply_phase63_repair_plan(s, config, &plan, regime.as_str(), &r);
    let rebased = phase66_continuity_rebased_from_runtime(&r);
    let telemetry = Phase63Telemetry {
        holdout_id: r.holdout_id.clone(),
        selected_targets: plan.targets.len(),
        applied_targets: applied,
        skipped_reason: None,
        supervisor_intensity: if rebased == i32::MIN {
            i32::MAX
        } else {
            -rebased
        },
        problematic: r.continuity_delta() == 0 && rebased < 0,
        continuity_delta: r.continuity_delta(),
        external_delta: r.external_delta(),
        region_delta: r.region_delta(),
        anchor_delta: r.anchor_delta(),
    };
    let published = vec![
        assignment("GORT_PHASE63_PLAN", phase63_plan_line(&plan)),
        assignment("GORT_PHASE63_TELEMETRY", phase63_telemetry_line(&telemetry)),
        assignment("GORT_PHASE63_DIAGNOSTIC", diagnostic),
        assignment("GORT_PHASE63_REGIME", regime),
    ];
    append_assignments(&mut assignments, published);
    let mut note = text("phase63 topology repair targets=");
    push_usize(&mut note, plan.targets.len());
    push_str(&mut note, " applied=");
    push_usize(&mut note, applied);
    push_str(&mut note, " holdout=");
    push_str(&mut note, r.holdout_id.as_str());
    (output, Phase62StructuralReport { applied: applied > 0, generated_constraints: applied, note }, assignments, stored)
}

/// Whether the raw hand-off setting reads as yes.
pub fn phase66_escalation_handoff(raw: &Option<String>) -> (b: bool)
    ensures
        b == handoff_of(match *raw {
            Some(x) => Some(x@),
            None => None,
        }),
{
    match raw {
        None => false,
        Some(v) => {
            let t = trim_text(v.as_str());
            equals_ascii_lower(t, "true") || equals_ascii_lower(t, "1") || equals_ascii_lower(t, "yes")
        },
    }
}

/// The rebase telemetry of a summary.
pub fn phase66_telemetry_from_runtime(r: &Phase63RuntimeSummary, escalation: bool) -> (t: Phase66Telemetry)
    requires
        runtime_fits(rv(*r)),
    ensures
        t.holdout_id@ == r.holdout_id@,
        t.continuity_pre == r.continuity_pre,
        t.continuity_post == r.continuity_post,
        t.continuity_delta == continuity_delta(rv(*r)),
        t.external_delta == external_delta(rv(*r)),
        t.region_delta == region_delta(rv(*r)),
        t.anchor_delta == anchor_delta(rv(*r)),
        t.support_signal == r.support_signal,
        t.contradiction_signal == r.contradiction_signal,
        t.contradiction_pressure_ratio_ppm == pressure_ratio_ppm(rv(*r)),
        (t.contradiction_penalty as int, t.region_reward as int, t.anchor_reward as int, t.continuity_rebased as int)
            == rebase_terms(continuity_delta(rv(*r)), pressure_ratio_ppm(rv(*r)), region_delta(rv(*r)), anchor_delta(rv(*r))),
        t.escalation_handoff == escalation,
        t.phase67_escalation_marker == escalation,
        t.short_window_baseline == r.continuity_post,
        t.medium_window_baseline == trunc_div(r.continuity_pre + r.continuity_post, 2),
        t.long_window_baseline == r.continuity_pre,
        t.mode@ == "telemetry_only"@,
{
    let cd = r.continuity_delta();
    let rd = r.region_delta();
    let ad = r.anchor_delta();
    let ratio = phase66_pressure_ratio(r);
    let (penalty, region_reward, anchor_reward, rebased) = phase66_continuity_rebase_terms(cd, ratio, rd, ad);
    Phase66Telemetry {
        holdout_id: r.holdout_id.clone(),
        continuity_pre: r.continuity_pre,
        continuity_post: r.continuity_post,
        continuity_delta: cd,
        external_delta: r.external_delta(),
        region_delta: rd,
        anchor_delta: ad,
        support_signal: r.support_signal,
        contradiction_signal: r.contradiction_signal,
        contradiction_pressure_ratio_ppm: ratio,
        contradiction_penalty: penalty,
        region_reward,
        anchor_reward,
        continuity_rebased: rebased,
        escalation_handoff: escalation,
        phase67_escalation_marker: escalation,
        short_window_baseline: r.continuity_post,
        medium_window_baseline: (r.continuity_pre + r.continuity_post) / 2,
        long_window_baseline: r.continuity_pre,
        mode: text("telemetry_only"),
    }
}

/// The rebase telemetry line.
pub fn phase66_telemetry_line(t: &Phase66Telemetry) -> (line: String)
    ensures
        line@ == "holdout_id="@ + t.holdout_id@ + " mode="@ + t.mode@
            + " alpha_num=4 alpha_den=1000000 beta=2 gamma=1 continuity_pre="@ + dec_int(t.continuity_pre as int)
            + " continuity_post="@ + dec_int(t.continuity_post as int) + " continuity_delta="@ + dec_int(
            t.continuity_delta as int,
        ) + " external_delta="@ + dec_int(t.external_delta as int) + " region_delta="@ + dec_int(
            t.region_delta as int,
        ) + " anchor_delta="@ + dec_int(t.anchor_delta as int) + " support_signal="@ + dec_int(
            t.support_signal as int,
        ) + " contradiction_signal="@ + dec_int(t.contradiction_signal as int)
            + " contradiction_pressure_ratio_ppm="@ + dec_int(t.contradiction_pressure_ratio_ppm as int)
            + " contradiction_penalty="@ + dec_int(t.contradiction_penalty as int) + " region_reward="@ + dec_int(
            t.region_reward as int,
        ) + " anchor_reward="@ + dec_int(t.anchor_reward as int) + " continuity_rebased="@ + dec_int(
            t.continuity_rebased as int,
        ) + " escalation_handoff="@ + bool_text(t.escalation_handoff) + " phase67_escalation_marker="@ + bool_text(
            t.phase67_escalation_marker,
        ) + " short_window_baseline="@ + dec_int(t.short_window_baseline as int) + " medium_window_baseline="@
            + dec_int(t.medium_window_baseline as int) + " long_window_baseline="@ + dec_int(
            t.long_window_baseline as int,
        ),
{
    let mut line = text("holdout_id=");
    push_str(&mut line, t.holdout_id.as_str());
    push_str(&mut line, " mode=");
    push_str(&mut line, t.mode.as_str());
    push_str(&mut line, " alpha_num=4 alpha_den=1000000 beta=2 gamma=1 continuity_pre=");
    push_i64(&mut line, t.continuity_pre as i64);
    push_str(&mut line, " continuity_post=");
    push_i64(&mut line, t.continuity_post as i64);
    push_str(&mut line, " continuity_delta=");
    push_i64(&mut line, t.continuity_delta as i64);
    push_str(&mut line, " external_delta=");
    push_i64(&mut line, t.external_delta as i64);
    push_str(&mut line, " region_delta=");
    push_i64(&mut line, t.region_delta as i64);
    push_str(&mut line, " anchor_delta=");
    push_i64(&mut line, t.anchor_delta as i64);
    push_str(&mut line, " support_signal=");
    push_i64(&mut line, t.support_signal as i64);
    push_str(&mut line, " contradiction_signal=");
    push_i64(&mut line, t.contradiction_signal as i64);
    push_str(&mut line, " contradiction_pressure_ratio_ppm=");
    push_i64(&mut line, t.contradiction_pressure_ratio_ppm as i64);
    push_str(&mut line, " contradiction_penalty=");
    push_i64(&mut line, t.contradiction_penalty as i64);
    push_str(&mut line, " region_reward=");
    push_i64(&mut line, t.region_reward as i64);
    push_str(&mut line, " anchor_reward=");
    push_i64(&mut line, t.anchor_reward as i64);
    push_str(&mut line, " continuity_rebased=");
    push_i64(&mut line, t.continuity_rebased as i64);
    push_str(&mut line, " escalation_handoff=");
    push_bool(&mut line, t.escalation_handoff);
    push_str(&mut line, " phase67_escalation_marker=");
    push_bool(&mut line, t.phase67_escalation_marker);
    push_str(&mut line, " short_window_baseline=");
    push_i64(&mut line, t.short_window_baseline as i64);
    push_str(&mut line, " medium_window_baseline=");
    push_i64(&mut line, t.medium_window_baseline as i64);
    push_str(&mut line, " long_window_baseline=");
    push_i64(&mut line, t.long_window_baseline as i64);
    line
}

/// The hand-off telemetry of a rebase run.
pub fn phase67_telemetry_from_phase66(t: &Phase66Telemetry) -> (h: Phase67Telemetry)
    ensures
        h.holdout_id@ == t.holdout_id@,
        h.phase67_escalation_marker_in == t.phase67_escalation_marker,
        h.phase67_semantic_context@ == "empty"@,
        h.phase67_ready,
{
    Phase67Telemetry {
        holdout_id: t.holdout_id.clone(),
        phase67_escalation_marker_in: t.phase67_escalation_marker,
        phase67_semantic_context: text("empty"),
        phase67_ready: true,
    }
}

/// The hand-off telemetry line.
pub fn phase67_telemetry_line(t: &Phase67Telemetry) -> (line: String)
    ensures
        line@ == "holdout_id="@ + t.holdout_id@ + " phase67_escalation_marker_in="@ + bool_text(
            t.phase67_escalation_marker_in,
        ) + " phase67_semantic_context="@ + t.phase67_semantic_context@ + " phase67_ready="@ + bool_text(
            t.phase67_ready,
        ),
{
    let mut line = text("holdout_id=");
    push_str(&mut line, t.holdout_id.as_str());
    push_str(&mut line, " phase67_escalation_marker_in=");
    push_bool(&mut line, t.phase67_escalation_marker_in);
    push_str(&mut line, " phase67_semantic_context=");
    push_str(&mut line, t.phase67_semantic_context.as_str());
    push_str(&mut line, " phase67_ready=");
    push_bool(&mut line, t.phase67_ready);
    line
}

/// The continuity-rebase telemetry run: constraints unchanged, telemetry
/// returned as assignments.
pub fn scaffold_continuity_rebase_telemetry_v66(
    s: &[SemanticConstraint],
    target: &str,
    runtime: Option<Phase62RuntimeSummary>,
    escalation: &Option<String>,
) -> (o: (Vec<SemanticConstraint>, Phase62StructuralReport, Vec<(String, String)>))
    requires
        runtime matches Some(rt) ==> runtime_fits(from62(rt, target@)),
    ensures
        ({
            let want = rebase_telemetry(
                s@,
                target@,
                match runtime {
                    Some(rt) => Some(from62(rt, target@)),
                    None => None,
                },
                handoff_of(match *escalation {
                    Some(x) => Some(x@),
                    None => None,
                }),
            );
            &&& probe_view((o.0, o.1)) == want.0
            &&& aviews(o.2@) == want.1
        }),
{
    proof {
        reveal_strlit("empty");
        reveal_strlit("true");
        reveal_strlit("false");
    }
    match runtime {
        None => {
            let mut line = text("holdout_id=");
            push_str(&mut line, target);
            push_str(&mut line, " mode=telemetry_only status=missing_runtime_summary");
            let handoff = Phase67Telemetry {
                holdout_id: text(target),
                phase67_escalation_marker_in: false,
                phase67_semantic_context: text("empty"),
                phase67_ready: true,
            };
            let v = vec![
                assignment("GORT_PHASE66_TELEMETRY", line),
                assignment("GORT_PHASE67_TELEMETRY", phase67_telemetry_line(&handoff)),
            ];
            let mut note = text("phase66 continuity rebase telemetry skipped for target ");
            push_str(&mut note, target);
            push_str(&mut note, ": missing runtime summary");
            assert(aviews(v@) =~= seq![
                ("GORT_PHASE66_TELEMETRY"@, "holdout_id="@ + target@ + " mode=telemetry_only status=missing_runtime_summary"@),
                ("GORT_PHASE67_TELEMETRY"@, handoff_line(target@, false)),
            ]);
            (
                crate::cognition::phase62_structural_experiment::copy_constraints(s),
                Phase62StructuralReport { applied: false, generated_constraints: 0, note },
                v,
            )
        },
        Some(rt) => {
            let r = phase63_runtime_summary_from_phase62(rt, target);
            let esc = phase66_escalation_handoff(escalation);
            let t66 = phase66_telemetry_from_runtime(&r, esc);
            let t67 = phase67_telemetry_from_phase66(&t66);
            let line66 = phase66_telemetry_line(&t66);
            let line67 = phase67_telemetry_line(&t67);
            assert(line66@ == rebase_line(rv(r), esc));
            let v = vec![assignment("GORT_PHASE66_TELEMETRY", line66), assignment("GORT_PHASE67_TELEMETRY", line67)];
            let mut note = text("phase66 continuity rebase telemetry emitted for holdout ");
            push_str(&mut note, t66.holdout_id.as_str());
            assert(aviews(v@) =~= seq![
                ("GORT_PHASE66_TELEMETRY"@, rebase_line(rv(r), esc)),
                ("GORT_PHASE67_TELEMETRY"@, handoff_line(r.holdout_id@, esc)),
            ]);
            (
                crate::cognition::phase62_structural_experiment::copy_constraints(s),
                Phase62StructuralReport { applied: false, generated_constraints: 0, note },
                v,
            )
        },
    }
}

} // verus!
