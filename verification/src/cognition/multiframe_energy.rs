//! Cognitive energy: the potential each region of a flow field sits at, the
//! gradients between regions, and the moves that descend the potential.
use vstd::prelude::*;
use crate::cognition::multiframe_flow::{CognitiveFlowField, FlowFieldView, RegionFlowView, region_flow_views};
use crate::cognition::multiframe_topology::{abs_int, CognitiveTopology, MAX_ANCHORS, MAX_TEXTS};
use crate::cognition::phase61_structural_recovery::trunc_div;
use crate::geom::invariants::InvariantViolation;
use crate::json::{json_hash, json_hash_text, json_list, json_strs, push_json_list, push_json_strs};
use crate::text::{dec_int, push_i64, same_text, text, views};

verus! {

// ── types ────────────────────────────────────────────────────────────────────

/// The potential of one region.
#[derive(Debug, Clone, PartialEq, Eq)]
pub struct StabilityEnergy {
    pub region_id: String,
    pub potential: i64,
    /// Positive: a low-energy well; negative: a high-energy barrier.
    pub well_depth: i64,
    /// How strongly the region holds what reaches it.
    pub attraction_strength: i64,
}

/// The potential difference between two regions.
#[derive(Debug, Clone, PartialEq, Eq)]
pub struct EnergyGradient {
    pub source_region: String,
    pub target_region: String,
    /// Positive: downhill (favourable); negative: uphill (costly).
    pub gradient: i64,
    pub traversal_cost: i64,
}

/// The potential landscape of a flow field.
#[derive(Debug, Clone, PartialEq, Eq)]
pub struct CognitivePotentialField {
    pub stability_energies: Vec<StabilityEnergy>,
    pub gradients: Vec<EnergyGradient>,
    pub global_minimum_region: String,
    pub global_minimum_energy: i64,
}

/// One chosen move.
#[derive(Debug, Clone, PartialEq, Eq)]
pub struct ActionSelectionPolicy {
    pub preferred_trajectory: Vec<String>,
    pub energy_cost: i64,
    pub stability_gain: i64,
    pub confidence: i64,
}

/// A sequence of moves down the potential.
#[derive(Debug, Clone, PartialEq, Eq)]
pub struct EnergyMinimizingTrajectory {
    pub actions: Vec<ActionSelectionPolicy>,
    pub total_energy_cost: i64,
    pub convergent_outcome: bool,
    pub canonical_hash: String,
}

pub struct EnergyView {
    pub region_id: Seq<char>,
    pub potential: i64,
    pub well_depth: i64,
    pub attraction_strength: i64,
}

pub struct GradientView {
    pub source_region: Seq<char>,
    pub target_region: Seq<char>,
    pub gradient: i64,
    pub traversal_cost: i64,
}

pub struct PotentialView {
    pub stability_energies: Seq<EnergyView>,
    pub gradients: Seq<GradientView>,
    pub global_minimum_region: Seq<char>,
    pub global_minimum_energy: i64,
}

pub struct ActionView {
    pub preferred_trajectory: Seq<Seq<char>>,
    pub energy_cost: i64,
    pub stability_gain: i64,
    pub confidence: i64,
}

pub struct TrajectoryView {
    pub actions: Seq<ActionView>,
    pub total_energy_cost: i64,
    pub convergent_outcome: bool,
    pub canonical_hash: Seq<char>,
}

impl View for StabilityEnergy {
    type V = EnergyView;

    open spec fn view(&self) -> EnergyView {
        EnergyView {
            region_id: self.region_id@,
            potential: self.potential,
            well_depth: self.well_depth,
            attraction_strength: self.attraction_strength,
        }
    }
}

impl View for EnergyGradient {
    type V = GradientView;

    open spec fn view(&self) -> GradientView {
        GradientView {
            source_region: self.source_region@,
            target_region: self.target_region@,
            gradient: self.gradient,
            traversal_cost: self.traversal_cost,
        }
    }
}

pub open spec fn energy_views(s: Seq<StabilityEnergy>) -> Seq<EnergyView> {
    s.map_values(|e: StabilityEnergy| e@)
}

pub open spec fn gradient_views(s: Seq<EnergyGradient>) -> Seq<GradientView> {
    s.map_values(|g: EnergyGradient| g@)
}

impl View for CognitivePotentialField {
    type V = PotentialView;

    open spec fn view(&self) -> PotentialView {
        PotentialView {
            stability_energies: energy_views(self.stability_energies@),
            gradients: gradient_views(self.gradients@),
            global_minimum_region: self.global_minimum_region@,
            global_minimum_energy: self.global_minimum_energy,
        }
    }
}

impl View for ActionSelectionPolicy {
    type V = ActionView;

    open spec fn view(&self) -> ActionView {
        ActionView {
            preferred_trajectory: views(self.preferred_trajectory@),
            energy_cost: self.energy_cost,
            stability_gain: self.stability_gain,
            confidence: self.confidence,
        }
    }
}

pub open spec fn action_views(s: Seq<ActionSelectionPolicy>) -> Seq<ActionView> {
    s.map_values(|a: ActionSelectionPolicy| a@)
}

impl View for EnergyMinimizingTrajectory {
    type V = TrajectoryView;

    open spec fn view(&self) -> TrajectoryView {
        TrajectoryView {
            actions: action_views(self.actions@),
            total_energy_cost: self.total_energy_cost,
            convergent_outcome: self.convergent_outcome,
            canonical_hash: self.canonical_hash@,
        }
    }
}

// ── stable sorting by an integer key ─────────────────────────────────────────

/// `x` inserted into `s` before the first element with a larger key.
pub open spec fn insert_by_rank<T>(s: Seq<T>, x: T, rank: spec_fn(T) -> int) -> Seq<T>
    decreases s.len(),
{
    if s.len() == 0 {
        seq![x]
    } else if rank(x) < rank(s[0]) {
        seq![x] + s
    } else {
        seq![s[0]] + insert_by_rank(s.drop_first(), x, rank)
    }
}

/// `s` ordered by increasing rank, equal ranks kept in their order.
pub open spec fn ranked<T>(s: Seq<T>, rank: spec_fn(T) -> int) -> Seq<T>
    decreases s.len(),
{
    if s.len() == 0 {
        Seq::empty()
    } else {
        insert_by_rank(ranked(s.drop_last(), rank), s.last(), rank)
    }
}

pub proof fn lemma_insert_by_rank_at<T>(s: Seq<T>, x: T, rank: spec_fn(T) -> int, p: int)
    requires
        0 <= p <= s.len(),
        forall|k: int| 0 <= k < p ==> rank(x) >= #[trigger] rank(s[k]),
        p < s.len() ==> rank(x) < rank(s[p]),
    ensures
        insert_by_rank(s, x, rank) == s.subrange(0, p) + seq![x] + s.subrange(p, s.len() as int),
    decreases p,
{
    if p == 0 {
        if s.len() == 0 {
            assert(s.subrange(0, 0) + seq![x] + s.subrange(0, 0) =~= seq![x]);
        } else {
            assert(s.subrange(0, 0) + seq![x] + s.subrange(0, s.len() as int) =~= seq![x] + s);
        }
    } else {
        let t = s.drop_first();
        assert forall|k: int| 0 <= k < p - 1 implies rank(x) >= #[trigger] rank(t[k]) by {
            assert(t[k] == s[k + 1]);
        }
        if p - 1 < t.len() {
            assert(t[p - 1] == s[p]);
        }
        lemma_insert_by_rank_at(t, x, rank, p - 1);
        assert(s.subrange(0, p) + seq![x] + s.subrange(p, s.len() as int) =~= seq![s[0]] + (t.subrange(
            0,
            p - 1,
        ) + seq![x] + t.subrange(p - 1, t.len() as int)));
    }
}

pub proof fn lemma_ranked_contents<T>(s: Seq<T>, rank: spec_fn(T) -> int)
    ensures
        ranked(s, rank).len() == s.len(),
        forall|y: T| #[trigger] ranked(s, rank).contains(y) ==> s.contains(y),
    decreases s.len(),
{
    if s.len() > 0 {
        lemma_ranked_contents(s.drop_last(), rank);
        lemma_insert_by_rank_contents(ranked(s.drop_last(), rank), s.last(), rank);
        assert forall|y: T| #[trigger] ranked(s, rank).contains(y) implies s.contains(y) by {
            if ranked(s.drop_last(), rank).contains(y) {
                assert(s.drop_last().contains(y));
                let m = choose|m: int| 0 <= m < s.drop_last().len() && s.drop_last()[m] == y;
                assert(s[m] == y);
            } else {
                assert(s[s.len() - 1] == y);
            }
        }
    }
}

pub proof fn lemma_insert_by_rank_contents<T>(s: Seq<T>, x: T, rank: spec_fn(T) -> int)
    ensures
        insert_by_rank(s, x, rank).len() == s.len() + 1,
        forall|y: T| #[trigger] insert_by_rank(s, x, rank).contains(y) ==> s.contains(y) || y == x,
    decreases s.len(),
{
    if s.len() > 0 && !(rank(x) < rank(s[0])) {
        lemma_insert_by_rank_contents(s.drop_first(), x, rank);
        assert forall|y: T| #[trigger] insert_by_rank(s, x, rank).contains(y) implies s.contains(y) || y == x by {
            let r = insert_by_rank(s, x, rank);
            let k = choose|k: int| 0 <= k < r.len() && r[k] == y;
            if k == 0 {
                assert(s[0] == y);
            } else {
                let t = insert_by_rank(s.drop_first(), x, rank);
                assert(t[k - 1] == y);
                assert(t.contains(y));
                if s.drop_first().contains(y) {
                    let m = choose|m: int| 0 <= m < s.drop_first().len() && s.drop_first()[m] == y;
                    assert(s[m + 1] == y);
                }
            }
        }
    } else if s.len() > 0 {
        assert forall|y: T| #[trigger] insert_by_rank(s, x, rank).contains(y) implies s.contains(y) || y == x by {
            let r = insert_by_rank(s, x, rank);
            let k = choose|k: int| 0 <= k < r.len() && r[k] == y;
            if k > 0 {
                assert(s[k - 1] == y);
            }
        }
    } else {
        assert forall|y: T| #[trigger] insert_by_rank(s, x, rank).contains(y) implies s.contains(y) || y == x by {
            let r = insert_by_rank(s, x, rank);
            let k = choose|k: int| 0 <= k < r.len() && r[k] == y;
        }
    }
}


// ── the potential field ──────────────────────────────────────────────────────

pub open spec fn clamp_int(x: int, lo: int, hi: int) -> int {
    if x < lo { lo } else if x > hi { hi } else { x }
}

pub open spec fn max_int(a: int, b: int) -> int {
    if a >= b { a } else { b }
}

pub open spec fn min_int(a: int, b: int) -> int {
    if a <= b { a } else { b }
}

/// The unclamped potential of a region: 1000 less its persistence, less a
/// descent bonus (a quarter of a rising cohesion trend plus a sixth of a
/// rising size trend), plus a fifth of a falling cohesion trend.
pub open spec fn raw_potential(rv: RegionFlowView) -> int {
    let bonus = max_int(rv.cohesion_trend as int, 0) / 4 + max_int(rv.size_trend as int, 0) / 6;
    let penalty = abs_int(min_int(rv.cohesion_trend as int, 0)) / 5;
    1000 - rv.persistence_score - bonus + penalty
}

/// The energy entry of a region vector.
pub open spec fn energy_of_flow(rv: RegionFlowView) -> EnergyView {
    let pot = clamp_int(raw_potential(rv), 0, 4000);
    EnergyView {
        region_id: rv.region_id,
        potential: pot as i64,
        well_depth: (if rv.is_attractor { rv.persistence_score * 2 } else { -pot }) as i64,
        attraction_strength: (if rv.is_attractor { max_int(1000 - pot, 100) } else { max_int(pot - 500, 0) }) as i64,
    }
}

pub open spec fn by_potential() -> spec_fn(EnergyView) -> int {
    |e: EnergyView| e.potential as int
}

pub open spec fn by_falling_gradient() -> spec_fn(GradientView) -> int {
    |g: GradientView| -(g.gradient as int)
}

/// The gradient from `a` to `b`: their potential difference, with a
/// traversal cost of its size plus 50.
pub open spec fn pair_gradient(a: EnergyView, b: EnergyView) -> GradientView {
    let d = a.potential - b.potential;
    GradientView {
        source_region: a.region_id,
        target_region: b.region_id,
        gradient: d as i64,
        traversal_cost: (abs_int(d) + 50) as i64,
    }
}

/// The gradients from `es[i]` to each of `es[0..j)` but itself.
pub open spec fn gradient_row(es: Seq<EnergyView>, i: int, j: int) -> Seq<GradientView>
    decreases j,
{
    if j <= 0 {
        Seq::empty()
    } else {
        let rest = gradient_row(es, i, j - 1);
        if j - 1 == i {
            rest
        } else {
            rest.push(pair_gradient(es[i], es[j - 1]))
        }
    }
}

/// The gradients from each of `es[0..i)` to every other entry.
pub open spec fn gradient_rows(es: Seq<EnergyView>, i: int) -> Seq<GradientView>
    decreases i,
{
    if i <= 0 {
        Seq::empty()
    } else {
        gradient_rows(es, i - 1) + gradient_row(es, i - 1, es.len() as int)
    }
}

/// The potential field of a flow field: one energy entry per region vector,
/// in increasing potential (ties kept in order); the gradient between every
/// ordered pair of distinct entries, in decreasing gradient (ties kept in
/// order); the global minimum is the first entry (or "" and 500 without
/// entries).
pub open spec fn potential_field_of(flow: FlowFieldView) -> PotentialView {
    let es = ranked(flow.region_vectors.map_values(|rv: RegionFlowView| energy_of_flow(rv)), by_potential());
    PotentialView {
        stability_energies: es,
        gradients: ranked(gradient_rows(es, es.len() as int), by_falling_gradient()),
        global_minimum_region: if es.len() > 0 { es[0].region_id } else { Seq::empty() },
        global_minimum_energy: if es.len() > 0 { es[0].potential } else { 500 },
    }
}

/// The arithmetic of one region vector stays within `i64`.
pub open spec fn flow_vector_fits(rv: RegionFlowView) -> bool {
    let bonus = max_int(rv.cohesion_trend as int, 0) / 4 + max_int(rv.size_trend as int, 0) / 6;
    let penalty = abs_int(min_int(rv.cohesion_trend as int, 0)) / 5;
    &&& rv.cohesion_trend != i64::MIN
    &&& i64::MIN <= 1000 - rv.persistence_score <= i64::MAX
    &&& i64::MIN <= 1000 - rv.persistence_score - bonus <= i64::MAX
    &&& i64::MIN <= 1000 - rv.persistence_score - bonus + penalty <= i64::MAX
    &&& rv.is_attractor ==> i64::MIN <= rv.persistence_score * 2 <= i64::MAX
}

/// Building the potential field overflows nowhere and relates fewer regions
/// than a machine can pair up.
pub open spec fn potential_fits(flow: FlowFieldView) -> bool {
    &&& flow.region_vectors.len() <= MAX_ANCHORS
    &&& forall|k: int| 0 <= k < flow.region_vectors.len() ==> flow_vector_fits(#[trigger] flow.region_vectors[k])
}

fn energy_entry(rv: &crate::cognition::multiframe_flow::RegionFlowVector) -> (e: StabilityEnergy)
    requires
        flow_vector_fits(rv@),
    ensures
        e@ == energy_of_flow(rv@),
        0 <= e.potential <= 4000,
{
    let coh = rv.cohesion_trend;
    let size = rv.size_trend;
    let bonus = (if coh > 0 {
        coh
    } else {
        0
    }) / 4 + (if size > 0 {
        size
    } else {
        0
    }) / 6;
    let neg = if coh < 0 {
        coh
    } else {
        0
    };
    let penalty = (-neg) / 5;
    let raw = 1000 - rv.persistence_score - bonus + penalty;
    let potential = if raw < 0 {
        0
    } else if raw > 4000 {
        4000
    } else {
        raw
    };
    let well_depth = if rv.is_attractor {
        rv.persistence_score * 2
    } else {
        -potential
    };
    let attraction_strength = if rv.is_attractor {
        if 1000 - potential > 100 {
            1000 - potential
        } else {
            100
        }
    } else {
        if potential - 500 > 0 {
            potential - 500
        } else {
            0
        }
    };
    StabilityEnergy { region_id: rv.region_id.clone(), potential, well_depth, attraction_strength }
}

fn sorted_energies(flow: &CognitiveFlowField) -> (r: Vec<StabilityEnergy>)
    requires
        potential_fits(flow@),
    ensures
        energy_views(r@) == ranked(flow@.region_vectors.map_values(|rv: RegionFlowView| energy_of_flow(rv)), by_potential()),
        forall|k: int| 0 <= k < r@.len() ==> 0 <= (#[trigger] r@[k]).potential <= 4000,
{
    let ghost all = flow@.region_vectors.map_values(|rv: RegionFlowView| energy_of_flow(rv));
    let mut out: Vec<StabilityEnergy> = Vec::new();
    let mut i: usize = 0;
    while i < flow.region_vectors.len()
        invariant
            potential_fits(flow@),
            all == flow@.region_vectors.map_values(|rv: RegionFlowView| energy_of_flow(rv)),
            i <= all.len(),
            all.len() == flow.region_vectors@.len(),
            energy_views(out@) == ranked(all.take(i as int), by_potential()),
            forall|k: int| 0 <= k < out@.len() ==> 0 <= (#[trigger] out@[k]).potential <= 4000,
        decreases all.len() - i,
    {
        assert(flow_vector_fits(flow@.region_vectors[i as int]));
        let e = energy_entry(&flow.region_vectors[i]);
        let mut p: usize = 0;
        while p < out.len() && e.potential >= out[p].potential
            invariant
                p <= out@.len(),
                forall|k: int| 0 <= k < p ==> e.potential >= #[trigger] energy_views(out@)[k].potential,
            decreases out@.len() - p,
        {
            p = p + 1;
        }
        let ghost before = energy_views(out@);
        let ghost prior = out@;
        proof {
            lemma_insert_by_rank_at(before, e@, by_potential(), p as int);
            let tk = all.take(i + 1);
            assert(tk.drop_last() =~= all.take(i as int));
            assert(tk.last() == e@);
        }
        out.insert(p, e);
        proof {
            assert(energy_views(out@) =~= before.subrange(0, p as int) + seq![all[i as int]] + before.subrange(
                p as int,
                before.len() as int,
            ));
            assert(out@ =~= prior.insert(p as int, out@[p as int]));
            assert forall|k: int| 0 <= k < out@.len() implies 0 <= (#[trigger] out@[k]).potential <= 4000 by {
                if k < p {
                    assert(out@[k] == prior[k]);
                } else if k > p {
                    assert(out@[k] == prior[k - 1]);
                }
            }
        }
        i = i + 1;
    }
    assert(all.take(all.len() as int) =~= all);
    out
}

fn gradient_between(a: &StabilityEnergy, b: &StabilityEnergy) -> (g: EnergyGradient)
    requires
        0 <= a.potential <= 4000,
        0 <= b.potential <= 4000,
    ensures
        g@ == pair_gradient(a@, b@),
        -4000 <= g.gradient <= 4000,
{
    let d = a.potential - b.potential;
    let size = if d < 0 {
        -d
    } else {
        d
    };
    EnergyGradient {
        source_region: a.region_id.clone(),
        target_region: b.region_id.clone(),
        gradient: d,
        traversal_cost: size + 50,
    }
}


fn all_gradients(es: &Vec<StabilityEnergy>) -> (r: Vec<EnergyGradient>)
    requires
        forall|k: int| 0 <= k < es@.len() ==> 0 <= (#[trigger] es@[k]).potential <= 4000,
    ensures
        gradient_views(r@) == gradient_rows(energy_views(es@), es@.len() as int),
{
    let ghost ev = energy_views(es@);
    let mut out: Vec<EnergyGradient> = Vec::new();
    let mut i: usize = 0;
    while i < es.len()
        invariant
            ev == energy_views(es@),
            forall|k: int| 0 <= k < es@.len() ==> 0 <= (#[trigger] es@[k]).potential <= 4000,
            i <= ev.len(),
            gradient_views(out@) == gradient_rows(ev, i as int),
        decreases ev.len() - i,
    {
        let ghost start = gradient_views(out@);
        let mut j: usize = 0;
        while j < es.len()
            invariant
                ev == energy_views(es@),
                forall|k: int| 0 <= k < es@.len() ==> 0 <= (#[trigger] es@[k]).potential <= 4000,
                i < ev.len(),
                j <= ev.len(),
                gradient_views(out@) == start + gradient_row(ev, i as int, j as int),
            decreases ev.len() - j,
        {
            if i != j {
                let ghost before = out@;
                let g = gradient_between(&es[i], &es[j]);
                out.push(g);
                proof {
                    assert(gradient_views(out@) =~= gradient_views(before).push(pair_gradient(ev[i as int], ev[j as int])));
                }
            }
            j = j + 1;
        }
        i = i + 1;
    }
    out
}

fn sort_falling(v: &Vec<EnergyGradient>) -> (r: Vec<EnergyGradient>)
    ensures
        gradient_views(r@) == ranked(gradient_views(v@), by_falling_gradient()),
{
    let ghost all = gradient_views(v@);
    let mut out: Vec<EnergyGradient> = Vec::new();
    let mut i: usize = 0;
    while i < v.len()
        invariant
            all == gradient_views(v@),
            i <= all.len(),
            gradient_views(out@) == ranked(all.take(i as int), by_falling_gradient()),
        decreases all.len() - i,
    {
        let g = EnergyGradient {
            source_region: v[i].source_region.clone(),
            target_region: v[i].target_region.clone(),
            gradient: v[i].gradient,
            traversal_cost: v[i].traversal_cost,
        };
        let mut p: usize = 0;
        while p < out.len() && g.gradient <= out[p].gradient
            invariant
                p <= out@.len(),
                forall|k: int| 0 <= k < p ==> -(g.gradient as int) >= -(#[trigger] gradient_views(out@)[k].gradient as int),
            decreases out@.len() - p,
        {
            p = p + 1;
        }
        let ghost before = gradient_views(out@);
        proof {
            lemma_insert_by_rank_at(before, g@, by_falling_gradient(), p as int);
            let tk = all.take(i + 1);
            assert(tk.drop_last() =~= all.take(i as int));
            assert(tk.last() == g@);
        }
        out.insert(p, g);
        proof {
            assert(gradient_views(out@) =~= before.subrange(0, p as int) + seq![all[i as int]] + before.subrange(
                p as int,
                before.len() as int,
            ));
        }
        i = i + 1;
    }
    assert(all.take(all.len() as int) =~= all);
    out
}

/// The potential landscape of a flow field (see `potential_field_of`): each
/// region's potential is 1000 less its persistence, shaped by its trends and
/// kept within 0..=4000; attractors are wells twice as deep as their
/// persistence, other regions barriers as high as their potential.
pub fn compute_cognitive_potential_field(flow_field: &CognitiveFlowField) -> (r: Result<CognitivePotentialField, InvariantViolation>)
    requires
        potential_fits(flow_field@),
    ensures
        r is Ok,
        r matches Ok(p) && p@ == potential_field_of(flow_field@),
{
    let stability_energies = sorted_energies(flow_field);
    let raw = all_gradients(&stability_energies);
    let gradients = sort_falling(&raw);
    let (global_minimum_region, global_minimum_energy) = if stability_energies.len() > 0 {
        (stability_energies[0].region_id.clone(), stability_energies[0].potential)
    } else {
        (String::new(), 500)
    };
    Ok(CognitivePotentialField { stability_energies, gradients, global_minimum_region, global_minimum_energy })
}


// ── choosing a move ──────────────────────────────────────────────────────────

/// The potential of `region` by the last energy entry with its id, or
/// `dflt` when none has it.
pub open spec fn potential_at(es: Seq<EnergyView>, region: Seq<char>, dflt: int) -> int
    decreases es.len(),
{
    if es.len() == 0 {
        dflt
    } else if es.last().region_id == region {
        es.last().potential as int
    } else {
        potential_at(es.drop_last(), region, dflt)
    }
}

/// A possible move: where to, the potential change, its cost and its gain.
pub struct Candidate {
    pub target: Seq<char>,
    pub delta: int,
    pub cost: int,
    pub gain: int,
}

/// The moves out of `cur` (at potential `cur_e`), in gradient order: those
/// that lower the potential by at least 12 (`preferred`), or those that
/// lower it by less.
pub open spec fn candidates(gs: Seq<GradientView>, es: Seq<EnergyView>, cur: Seq<char>, cur_e: int, preferred: bool) -> Seq<Candidate>
    decreases gs.len(),
{
    if gs.len() == 0 {
        Seq::empty()
    } else {
        let rest = candidates(gs.drop_last(), es, cur, cur_e, preferred);
        let g = gs.last();
        let delta = potential_at(es, g.target_region, cur_e) - cur_e;
        let c = Candidate {
            target: g.target_region,
            delta,
            cost: g.traversal_cost as int,
            gain: max_int(g.gradient as int, 0),
        };
        if g.source_region == cur && ((preferred && delta <= -12) || (!preferred && -12 < delta < 0)) {
            rest.push(c)
        } else {
            rest
        }
    }
}

/// The drop of a move per unit of cost, ×1000.
pub open spec fn efficiency(c: Candidate) -> int {
    let num = max_int(-c.delta, 0) * 1000;
    let den = c.cost + 1;
    if den > 0 { num / den } else { -(num / (-den)) }
}

/// The first move with the largest drop (ties broken by lower cost).
pub open spec fn steepest(pool: Seq<Candidate>) -> Candidate
    decreases pool.len(),
{
    if pool.len() <= 1 {
        pool[0]
    } else {
        let b = steepest(pool.drop_last());
        let x = pool.last();
        if x.delta < b.delta || (x.delta == b.delta && x.cost < b.cost) { x } else { b }
    }
}

/// The last move with the best efficiency (ties broken by higher gain).
pub open spec fn most_efficient(pool: Seq<Candidate>) -> Candidate
    decreases pool.len(),
{
    if pool.len() <= 1 {
        pool[0]
    } else {
        let b = most_efficient(pool.drop_last());
        let x = pool.last();
        if efficiency(x) > efficiency(b) || (efficiency(x) == efficiency(b) && x.gain >= b.gain) { x } else { b }
    }
}

/// The pool of moves: the preferred ones, or the lesser ones when there is
/// none.
pub open spec fn move_pool(pf: PotentialView, cur: Seq<char>) -> Seq<Candidate> {
    let cur_e = potential_at(pf.stability_energies, cur, 1000);
    let pref = candidates(pf.gradients, pf.stability_energies, cur, cur_e, true);
    if pref.len() > 0 {
        pref
    } else {
        candidates(pf.gradients, pf.stability_energies, cur, cur_e, false)
    }
}

/// The move chosen from `cur`: staying put (confidence 800) without a
/// downhill move; otherwise the steepest move (`aggressive`) or the most
/// efficient one, with confidence equal to its efficiency capped at 1000.
pub open spec fn action_of(pf: PotentialView, cur: Seq<char>, aggressive: bool) -> ActionView {
    let pool = move_pool(pf, cur);
    if pool.len() == 0 {
        ActionView { preferred_trajectory: seq![cur], energy_cost: 0, stability_gain: 0, confidence: 800 }
    } else {
        let c = if aggressive { steepest(pool) } else { most_efficient(pool) };
        ActionView {
            preferred_trajectory: seq![c.target],
            energy_cost: c.cost as i64,
            stability_gain: c.gain as i64,
            confidence: min_int(efficiency(c), 1000) as i64,
        }
    }
}

/// The efficiency of `c` is computed without overflow or division by zero.
pub open spec fn efficiency_fits(c: Candidate) -> bool {
    &&& i64::MIN < c.delta
    &&& max_int(-c.delta, 0) * 1000 <= i64::MAX
    &&& c.cost + 1 <= i64::MAX
    &&& c.cost + 1 != 0
}

/// Choosing a move from `cur` overflows nowhere and divides by no zero.
pub open spec fn action_fits(pf: PotentialView, cur: Seq<char>, aggressive: bool) -> bool {
    let cur_e = potential_at(pf.stability_energies, cur, 1000);
    let pool = move_pool(pf, cur);
    &&& forall|k: int|
        0 <= k < pf.gradients.len() && (#[trigger] pf.gradients[k]).source_region == cur ==> i64::MIN
            <= potential_at(pf.stability_energies, pf.gradients[k].target_region, cur_e) - cur_e <= i64::MAX
    &&& pool.len() > 0 ==> (if aggressive {
        efficiency_fits(steepest(pool))
    } else {
        forall|k: int| 0 <= k < pool.len() ==> efficiency_fits(#[trigger] pool[k])
    })
}

pub open spec fn action_json(a: ActionView) -> Seq<char> {
    "{\"preferred_trajectory\":"@ + json_strs(a.preferred_trajectory) + ",\"energy_cost\":"@ + dec_int(
        a.energy_cost as int,
    ) + ",\"stability_gain\":"@ + dec_int(a.stability_gain as int) + ",\"confidence\":"@ + dec_int(
        a.confidence as int,
    ) + "}"@
}

fn action_json_text(a: &ActionSelectionPolicy) -> (r: String)
    ensures
        r@ == action_json(a@),
{
    let mut out = String::new();
    out.append("{\"preferred_trajectory\":");
    push_json_strs(&mut out, &a.preferred_trajectory);
    out.append(",\"energy_cost\":");
    push_i64(&mut out, a.energy_cost);
    out.append(",\"stability_gain\":");
    push_i64(&mut out, a.stability_gain);
    out.append(",\"confidence\":");
    push_i64(&mut out, a.confidence);
    out.append("}");
    out
}

fn potential_at_of(es: &Vec<StabilityEnergy>, region: &str, dflt: i64) -> (p: i64)
    ensures
        p == potential_at(energy_views(es@), region@, dflt as int),
{
    let ghost ev = energy_views(es@);
    let key = text(region);
    let mut found: Option<i64> = None;
    let mut j: usize = 0;
    while j < es.len()
        invariant
            ev == energy_views(es@),
            key@ == region@,
            j <= ev.len(),
            match found {
                Some(v) => potential_at(ev.take(j as int), region@, dflt as int) == v,
                None => potential_at(ev.take(j as int), region@, dflt as int) == dflt,
            },
        decreases ev.len() - j,
    {
        proof {
            assert(ev.take(j + 1).drop_last() =~= ev.take(j as int));
            assert(ev.take(j + 1).last() == ev[j as int]);
        }
        if same_text(&es[j].region_id, &key) {
            found = Some(es[j].potential);
        }
        j = j + 1;
    }
    assert(ev.take(ev.len() as int) =~= ev);
    match found {
        Some(v) => v,
        None => dflt,
    }
}


pub open spec fn candidate_view(c: (String, i64, i64, i64)) -> Candidate {
    Candidate { target: c.0@, delta: c.1 as int, cost: c.2 as int, gain: c.3 as int }
}

pub open spec fn candidate_views(s: Seq<(String, i64, i64, i64)>) -> Seq<Candidate> {
    s.map_values(|c: (String, i64, i64, i64)| candidate_view(c))
}

fn move_pools(pf: &CognitivePotentialField, current_region: &str, aggressive: bool) -> (r: (Vec<(String, i64, i64, i64)>, Vec<(String, i64, i64, i64)>))
    requires
        action_fits(pf@, current_region@, aggressive),
    ensures
        candidate_views(r.0@) == candidates(
            pf@.gradients,
            pf@.stability_energies,
            current_region@,
            potential_at(pf@.stability_energies, current_region@, 1000),
            true,
        ),
        candidate_views(r.1@) == candidates(
            pf@.gradients,
            pf@.stability_energies,
            current_region@,
            potential_at(pf@.stability_energies, current_region@, 1000),
            false,
        ),
{
    let ghost gs = pf@.gradients;
    let ghost es = pf@.stability_energies;
    let cur = text(current_region);
    let cur_e = potential_at_of(&pf.stability_energies, current_region, 1000);
    let mut preferred: Vec<(String, i64, i64, i64)> = Vec::new();
    let mut fallback: Vec<(String, i64, i64, i64)> = Vec::new();
    let mut k: usize = 0;
    while k < pf.gradients.len()
        invariant
            gs == pf@.gradients,
            es == pf@.stability_energies,
            cur@ == current_region@,
            cur_e == potential_at(es, cur@, 1000),
            action_fits(pf@, current_region@, aggressive),
            k <= gs.len(),
            candidate_views(preferred@) == candidates(gs.take(k as int), es, cur@, cur_e as int, true),
            candidate_views(fallback@) == candidates(gs.take(k as int), es, cur@, cur_e as int, false),
        decreases gs.len() - k,
    {
        let g = &pf.gradients[k];
        proof {
            assert(gs.take(k + 1).drop_last() =~= gs.take(k as int));
            assert(gs.take(k + 1).last() == gs[k as int]);
        }
        if same_text(&g.source_region, &cur) {
            assert(gs[k as int].source_region == current_region@);
            let target_energy = potential_at_of(&pf.stability_energies, g.target_region.as_str(), cur_e);
            let delta = target_energy - cur_e;
            let gain = if g.gradient > 0 {
                g.gradient
            } else {
                0
            };
            let ghost pb = preferred@;
            let ghost fb = fallback@;
            if delta <= -12 {
                preferred.push((g.target_region.clone(), delta, g.traversal_cost, gain));
                proof {
                    assert(candidate_views(preferred@) =~= candidate_views(pb).push(candidate_view(preferred@.last())));
                }
            } else if delta < 0 {
                fallback.push((g.target_region.clone(), delta, g.traversal_cost, gain));
                proof {
                    assert(candidate_views(fallback@) =~= candidate_views(fb).push(candidate_view(fallback@.last())));
                }
            }
        }
        k = k + 1;
    }
    assert(gs.take(gs.len() as int) =~= gs);
    (preferred, fallback)
}

pub(crate) proof fn lemma_steepest_in(pool: Seq<Candidate>)
    requires
        pool.len() > 0,
    ensures
        pool.contains(steepest(pool)),
    decreases pool.len(),
{
    if pool.len() > 1 {
        lemma_steepest_in(pool.drop_last());
        let b = steepest(pool.drop_last());
        let m = choose|m: int| 0 <= m < pool.drop_last().len() && pool.drop_last()[m] == b;
        assert(pool[m] == b);
        assert(pool[pool.len() - 1] == pool.last());
    } else {
        assert(pool[0] == steepest(pool));
    }
}

fn efficiency_of(c: &(String, i64, i64, i64)) -> (e: i64)
    requires
        efficiency_fits(candidate_view(*c)),
    ensures
        e == efficiency(candidate_view(*c)),
{
    let drop = if -c.1 > 0 {
        -c.1
    } else {
        0
    };
    let num = drop * 1000;
    let den = c.2 + 1;
    if den > 0 {
        num / den
    } else {
        -(num / (-den))
    }
}

fn select_action_with_policy(pf: &CognitivePotentialField, current_region: &str, aggressive: bool) -> (r: ActionSelectionPolicy)
    requires
        action_fits(pf@, current_region@, aggressive),
    ensures
        r@ == action_of(pf@, current_region@, aggressive),
{
    let (preferred, fallback) = move_pools(pf, current_region, aggressive);
    let pool = if preferred.len() > 0 {
        preferred
    } else {
        fallback
    };
    let ghost pv = candidate_views(pool@);
    assert(pv == move_pool(pf@, current_region@));
    if pool.len() == 0 {
        let mut traj: Vec<String> = Vec::new();
        traj.push(text(current_region));
        proof {
            assert(views(traj@) =~= seq![current_region@]);
        }
        return ActionSelectionPolicy { preferred_trajectory: traj, energy_cost: 0, stability_gain: 0, confidence: 800 };
    }
    let mut best: usize = 0;
    let mut best_eff: i64 = 0;
    if !aggressive {
        assert(efficiency_fits(pv[0]));
        best_eff = efficiency_of(&pool[0]);
    }
    let mut k: usize = 1;
    assert(pv.take(1).drop_last() =~= Seq::<Candidate>::empty());
    while k < pool.len()
        invariant
            pv == candidate_views(pool@),
            pv.len() > 0,
            pv == move_pool(pf@, current_region@),
            action_fits(pf@, current_region@, aggressive),
            1 <= k <= pv.len(),
            best < k,
            aggressive ==> pv[best as int] == steepest(pv.take(k as int)),
            !aggressive ==> pv[best as int] == most_efficient(pv.take(k as int)),
            !aggressive ==> best_eff == efficiency(pv[best as int]),
        decreases pv.len() - k,
    {
        proof {
            assert(pv.take(k + 1).drop_last() =~= pv.take(k as int));
            assert(pv.take(k + 1).last() == pv[k as int]);
        }
        let x = &pool[k];
        if aggressive {
            if x.1 < pool[best].1 || (x.1 == pool[best].1 && x.2 < pool[best].2) {
                best = k;
            }
        } else {
            assert(efficiency_fits(pv[k as int]));
            let e = efficiency_of(x);
            if e > best_eff || (e == best_eff && x.3 >= pool[best].3) {
                best = k;
                best_eff = e;
            }
        }
        k = k + 1;
    }
    assert(pv.take(pv.len() as int) =~= pv);
    let chosen = &pool[best];
    proof {
        if aggressive {
            lemma_steepest_in(pv);
        }
    }
    assert(efficiency_fits(pv[best as int])) by {
        if aggressive {
            assert(efficiency_fits(steepest(pv)));
        }
    }
    let eff = efficiency_of(chosen);
    let confidence = if eff < 1000 {
        eff
    } else {
        1000
    };
    let mut traj: Vec<String> = Vec::new();
    traj.push(chosen.0.clone());
    proof {
        assert(views(traj@) =~= seq![pv[best as int].target]);
    }
    ActionSelectionPolicy {
        preferred_trajectory: traj,
        energy_cost: chosen.2,
        stability_gain: chosen.3,
        confidence,
    }
}

/// The move chosen from `current_region` (see `action_of`), weighing
/// efficiency: the most efficient downhill move, preferring drops of at
/// least 12.
pub fn select_action(potential_field: &CognitivePotentialField, current_region: &str) -> (r: Result<ActionSelectionPolicy, InvariantViolation>)
    requires
        action_fits(potential_field@, current_region@, false),
    ensures
        r is Ok,
        r matches Ok(a) && a@ == action_of(potential_field@, current_region@, false),
{
    Ok(select_action_with_policy(potential_field, current_region, false))
}


// ── descending the potential ────────────────────────────────────────────────

/// The last entry of highest potential.
pub open spec fn highest(es: Seq<EnergyView>) -> Option<EnergyView>
    decreases es.len(),
{
    if es.len() == 0 {
        None
    } else {
        match highest(es.drop_last()) {
            Some(b) => if es.last().potential >= b.potential { Some(es.last()) } else { Some(b) },
            None => Some(es.last()),
        }
    }
}

/// The moves from `cur`, at most `max_steps − step` of them, stopping after
/// a move that stays put or reaches the global minimum; the first two moves
/// are steepest when `spike`.
pub open spec fn walk(pf: PotentialView, cur: Seq<char>, step: int, max_steps: int, spike: bool) -> Seq<ActionView>
    decreases max_steps - step,
{
    if step >= max_steps {
        Seq::empty()
    } else {
        let a = action_of(pf, cur, spike && step < 2);
        let next = a.preferred_trajectory[0];
        if next == cur || next == pf.global_minimum_region {
            seq![a]
        } else {
            seq![a] + walk(pf, next, step + 1, max_steps, spike)
        }
    }
}

pub open spec fn action_total(actions: Seq<ActionView>) -> int
    decreases actions.len(),
{
    if actions.len() == 0 {
        0
    } else {
        action_total(actions.drop_last()) + actions.last().energy_cost
    }
}

/// The trajectory down the potential of a flow field: without snapshots no
/// move; otherwise from the region of highest potential, up to as many moves
/// as regions (at least 1, at most 4), steepest first when the momentum is at
/// least 100. It converges when the flow does and the moves cost under 500.
pub open spec fn trajectory_of(snapshot_count: nat, flow: FlowFieldView, anchors: Seq<Seq<char>>) -> TrajectoryView {
    let pf = potential_field_of(flow);
    let actions = if snapshot_count > 0 {
        let start = match highest(pf.stability_energies) {
            Some(e) => e.region_id,
            None => Seq::empty(),
        };
        let max_steps = clamp_int(pf.stability_energies.len() as int, 1, 4);
        walk(pf, start, 0, max_steps, flow.prediction.momentum >= 100)
    } else {
        Seq::empty()
    };
    let total = action_total(actions);
    TrajectoryView {
        actions,
        total_energy_cost: total as i64,
        convergent_outcome: flow.prediction.convergent && total < 500,
        canonical_hash: json_hash(
            json_list(
                seq![
                    json_list(actions.map_values(|a: ActionView| action_json(a))),
                    dec_int(pf.global_minimum_energy as int),
                    json_strs(anchors),
                ],
            ),
        ),
    }
}

/// Potentials within 0..=4000 and traversal costs within 50..=4050.
pub open spec fn tame(pf: PotentialView) -> bool {
    &&& forall|k: int| 0 <= k < pf.stability_energies.len() ==> 0 <= (#[trigger] pf.stability_energies[k]).potential <= 4000
    &&& forall|k: int| 0 <= k < pf.gradients.len() ==> 50 <= (#[trigger] pf.gradients[k]).traversal_cost <= 4050
}

proof fn lemma_potential_at_bounded(es: Seq<EnergyView>, region: Seq<char>, dflt: int)
    requires
        0 <= dflt <= 4000,
        forall|k: int| 0 <= k < es.len() ==> 0 <= (#[trigger] es[k]).potential <= 4000,
    ensures
        0 <= potential_at(es, region, dflt) <= 4000,
    decreases es.len(),
{
    if es.len() > 0 {
        assert(es.last() == es[es.len() - 1]);
        assert forall|k: int| 0 <= k < es.drop_last().len() implies 0 <= (#[trigger] es.drop_last()[k]).potential <= 4000 by {
            assert(es.drop_last()[k] == es[k]);
        }
        lemma_potential_at_bounded(es.drop_last(), region, dflt);
    }
}

proof fn lemma_candidates_bounded(gs: Seq<GradientView>, es: Seq<EnergyView>, cur: Seq<char>, cur_e: int, preferred: bool)
    requires
        0 <= cur_e <= 4000,
        forall|k: int| 0 <= k < es.len() ==> 0 <= (#[trigger] es[k]).potential <= 4000,
        forall|k: int| 0 <= k < gs.len() ==> 50 <= (#[trigger] gs[k]).traversal_cost <= 4050,
    ensures
        forall|k: int| 0 <= k < candidates(gs, es, cur, cur_e, preferred).len() ==> {
            let c = #[trigger] candidates(gs, es, cur, cur_e, preferred)[k];
            -4000 <= c.delta <= 4000 && 50 <= c.cost <= 4050 && 0 <= c.gain
        },
    decreases gs.len(),
{
    if gs.len() > 0 {
        assert forall|k: int| 0 <= k < gs.drop_last().len() implies 50 <= (#[trigger] gs.drop_last()[k]).traversal_cost <= 4050 by {
            assert(gs.drop_last()[k] == gs[k]);
        }
        lemma_candidates_bounded(gs.drop_last(), es, cur, cur_e, preferred);
        lemma_potential_at_bounded(es, gs.last().target_region, cur_e);
        assert(gs.last() == gs[gs.len() - 1]);
        let rest = candidates(gs.drop_last(), es, cur, cur_e, preferred);
        let all = candidates(gs, es, cur, cur_e, preferred);
        assert forall|k: int| 0 <= k < all.len() implies {
            let c = #[trigger] all[k];
            -4000 <= c.delta <= 4000 && 50 <= c.cost <= 4050 && 0 <= c.gain
        } by {
            if k < rest.len() {
                assert(all[k] == rest[k]);
            }
        }
    }
}

proof fn lemma_tame_fits(pf: PotentialView, cur: Seq<char>, aggressive: bool)
    requires
        tame(pf),
    ensures
        action_fits(pf, cur, aggressive),
        action_of(pf, cur, aggressive).preferred_trajectory.len() == 1,
        0 <= action_of(pf, cur, aggressive).energy_cost <= 4050,
{
    let es = pf.stability_energies;
    let gs = pf.gradients;
    lemma_potential_at_bounded(es, cur, 1000);
    let cur_e = potential_at(es, cur, 1000);
    assert forall|k: int| 0 <= k < gs.len() && (#[trigger] gs[k]).source_region == cur implies i64::MIN <= potential_at(
        es,
        gs[k].target_region,
        cur_e,
    ) - cur_e <= i64::MAX by {
        lemma_potential_at_bounded(es, gs[k].target_region, cur_e);
    }
    lemma_candidates_bounded(gs, es, cur, cur_e, true);
    lemma_candidates_bounded(gs, es, cur, cur_e, false);
    let pool = move_pool(pf, cur);
    assert forall|k: int| 0 <= k < pool.len() implies efficiency_fits(#[trigger] pool[k]) by {
        assert(-4000 <= pool[k].delta <= 4000 && 50 <= pool[k].cost <= 4050);
    }
    if pool.len() > 0 {
        lemma_steepest_in(pool);
        let c = steepest(pool);
        let m = choose|m: int| 0 <= m < pool.len() && pool[m] == c;
        assert(efficiency_fits(pool[m]));
        lemma_most_efficient_in(pool);
        let d = most_efficient(pool);
        let q = choose|q: int| 0 <= q < pool.len() && pool[q] == d;
        assert(-4000 <= pool[q].delta <= 4000 && 50 <= pool[q].cost <= 4050);
        assert(-4000 <= pool[m].delta <= 4000 && 50 <= pool[m].cost <= 4050);
    }
}

pub(crate) proof fn lemma_most_efficient_in(pool: Seq<Candidate>)
    requires
        pool.len() > 0,
    ensures
        pool.contains(most_efficient(pool)),
    decreases pool.len(),
{
    if pool.len() > 1 {
        lemma_most_efficient_in(pool.drop_last());
        let b = most_efficient(pool.drop_last());
        let m = choose|m: int| 0 <= m < pool.drop_last().len() && pool.drop_last()[m] == b;
        assert(pool[m] == b);
        assert(pool[pool.len() - 1] == pool.last());
    } else {
        assert(pool[0] == most_efficient(pool));
    }
}

proof fn lemma_gradient_rows_bounded(es: Seq<EnergyView>, i: int)
    requires
        0 <= i <= es.len(),
        forall|k: int| 0 <= k < es.len() ==> 0 <= (#[trigger] es[k]).potential <= 4000,
    ensures
        forall|k: int| 0 <= k < gradient_rows(es, i).len() ==> 50 <= (#[trigger] gradient_rows(es, i)[k]).traversal_cost <= 4050,
    decreases i,
{
    if i > 0 {
        lemma_gradient_rows_bounded(es, i - 1);
        lemma_gradient_row_bounded(es, i - 1, es.len() as int);
        let a = gradient_rows(es, i - 1);
        let b = gradient_row(es, i - 1, es.len() as int);
        assert forall|k: int| 0 <= k < (a + b).len() implies 50 <= (#[trigger] (a + b)[k]).traversal_cost <= 4050 by {
            if k < a.len() {
                assert((a + b)[k] == a[k]);
            } else {
                assert((a + b)[k] == b[k - a.len()]);
            }
        }
    }
}

proof fn lemma_gradient_row_bounded(es: Seq<EnergyView>, i: int, j: int)
    requires
        0 <= i < es.len(),
        0 <= j <= es.len(),
        forall|k: int| 0 <= k < es.len() ==> 0 <= (#[trigger] es[k]).potential <= 4000,
    ensures
        forall|k: int| 0 <= k < gradient_row(es, i, j).len() ==> 50 <= (#[trigger] gradient_row(es, i, j)[k]).traversal_cost <= 4050,
    decreases j,
{
    if j > 0 {
        lemma_gradient_row_bounded(es, i, j - 1);
        assert(0 <= es[i].potential <= 4000);
        assert(0 <= es[j - 1].potential <= 4000);
        let rest = gradient_row(es, i, j - 1);
        let all = gradient_row(es, i, j);
        assert forall|k: int| 0 <= k < all.len() implies 50 <= (#[trigger] all[k]).traversal_cost <= 4050 by {
            if k < rest.len() {
                assert(all[k] == rest[k]);
            }
        }
    }
}

proof fn lemma_field_tame(flow: FlowFieldView)
    requires
        potential_fits(flow),
    ensures
        tame(potential_field_of(flow)),
{
    let all = flow.region_vectors.map_values(|rv: RegionFlowView| energy_of_flow(rv));
    let es = ranked(all, by_potential());
    lemma_ranked_contents(all, by_potential());
    assert forall|k: int| 0 <= k < es.len() implies 0 <= (#[trigger] es[k]).potential <= 4000 by {
        assert(es.contains(es[k]));
        assert(all.contains(es[k]));
        let m = choose|m: int| 0 <= m < all.len() && all[m] == es[k];
        assert(flow_vector_fits(flow.region_vectors[m]));
    }
    lemma_gradient_rows_bounded(es, es.len() as int);
    let rows = gradient_rows(es, es.len() as int);
    lemma_ranked_contents(rows, by_falling_gradient());
    let gs = ranked(rows, by_falling_gradient());
    assert forall|k: int| 0 <= k < gs.len() implies 50 <= (#[trigger] gs[k]).traversal_cost <= 4050 by {
        assert(gs.contains(gs[k]));
        assert(rows.contains(gs[k]));
        let m = choose|m: int| 0 <= m < rows.len() && rows[m] == gs[k];
    }
}

fn actions_json_text(v: &Vec<ActionSelectionPolicy>) -> (r: String)
    ensures
        r@ == json_list(action_views(v@).map_values(|a: ActionView| action_json(a))),
{
    let ghost items = action_views(v@).map_values(|a: ActionView| action_json(a));
    let mut parts: Vec<String> = Vec::new();
    let mut i: usize = 0;
    while i < v.len()
        invariant
            i <= v@.len(),
            items == action_views(v@).map_values(|a: ActionView| action_json(a)),
            views(parts@) == items.take(i as int),
        decreases v@.len() - i,
    {
        let ghost before = parts@;
        let piece = action_json_text(&v[i]);
        parts.push(piece);
        proof {
            assert(views(parts@) =~= views(before).push(items[i as int]));
        }
        i = i + 1;
        assert(views(parts@) =~= items.take(i as int));
    }
    assert(items.take(v@.len() as int) =~= items);
    let mut out = String::new();
    push_json_list(&mut out, &parts);
    out
}

proof fn lemma_walk_step(pf: PotentialView, cur: Seq<char>, step: int, max_steps: int, spike: bool)
    requires
        step < max_steps,
    ensures
        walk(pf, cur, step, max_steps, spike) == ({
            let a = action_of(pf, cur, spike && step < 2);
            let next = a.preferred_trajectory[0];
            if next == cur || next == pf.global_minimum_region {
                seq![a]
            } else {
                seq![a] + walk(pf, next, step + 1, max_steps, spike)
            }
        }),
{
}

/// A trajectory of moves down the potential of `flow_field` (see
/// `trajectory_of`), with a canonical hash over the moves, the global
/// minimum energy and the anchors.
pub fn compute_energy_minimizing_trajectory(
    snapshots: &Vec<CognitiveTopology>,
    flow_field: &CognitiveFlowField,
    anchor_basis_ids: &Vec<String>,
) -> (r: Result<EnergyMinimizingTrajectory, InvariantViolation>)
    requires
        potential_fits(flow_field@),
    ensures
        r is Ok,
        r matches Ok(t) && t@ == trajectory_of(snapshots@.len(), flow_field@, views(anchor_basis_ids@)),
{
    let potential_field = match compute_cognitive_potential_field(flow_field) {
        Ok(p) => p,
        Err(e) => {
            return Err(e);
        },
    };
    let ghost pf = potential_field@;
    proof {
        lemma_field_tame(flow_field@);
    }
    let mut actions: Vec<ActionSelectionPolicy> = Vec::new();
    let mut total_energy_cost: i64 = 0;
    let ghost spike_g = flow_field@.prediction.momentum >= 100;
    let ghost mut whole_walk: Seq<ActionView> = Seq::empty();
    if snapshots.len() > 0 {
        let es = &potential_field.stability_energies;
        let mut current_region = String::new();
        let mut best: usize = 0;
        let mut j: usize = 0;
        let ghost ev = pf.stability_energies;
        while j < es.len()
            invariant
                ev == energy_views(es@),
                j <= ev.len(),
                j > 0 ==> best < j && highest(ev.take(j as int)) == Some(ev[best as int]),
                j == 0 ==> highest(ev.take(j as int)) is None,
            decreases ev.len() - j,
        {
            proof {
                assert(ev.take(j + 1).drop_last() =~= ev.take(j as int));
                assert(ev.take(j + 1).last() == ev[j as int]);
            }
            if j == 0 || es[j].potential >= es[best].potential {
                best = j;
            }
            j = j + 1;
        }
        assert(ev.take(ev.len() as int) =~= ev);
        if es.len() > 0 {
            current_region = es[best].region_id.clone();
        }
        let ghost start = current_region@;
        assert(start == match highest(ev) {
            Some(e) => e.region_id,
            None => Seq::<char>::empty(),
        });
        let max_steps: usize = if es.len() < 1 {
            1
        } else if es.len() > 4 {
            4
        } else {
            es.len()
        };
        let spike = flow_field.prediction.momentum >= 100;
        proof {
            whole_walk = walk(pf, start, 0, max_steps as int, spike);
        }
        let mut step: usize = 0;
        let mut done = false;
        while step < max_steps && !done
            invariant
                pf == potential_field@,
                tame(pf),
                spike == spike_g,
                max_steps <= 4,
                step <= max_steps,
                whole_walk == walk(pf, start, 0, max_steps as int, spike),
                done ==> action_views(actions@) == whole_walk,
                !done ==> action_views(actions@) + walk(pf, current_region@, step as int, max_steps as int, spike) == whole_walk,
                action_views(actions@).len() == step || done,
                actions@.len() <= step,
                total_energy_cost == action_total(action_views(actions@)),
                0 <= total_energy_cost <= 4050 * actions@.len(),
            decreases max_steps - step,
        {
            let aggressive = spike && step < 2;
            proof {
                lemma_tame_fits(pf, current_region@, aggressive);
                lemma_walk_step(pf, current_region@, step as int, max_steps as int, spike);
            }
            let action = select_action_with_policy(&potential_field, current_region.as_str(), aggressive);
            let ghost before = action_views(actions@);
            total_energy_cost = total_energy_cost + action.energy_cost;
            let next_region = action.preferred_trajectory[0].clone();
            actions.push(action);
            proof {
                assert(action_views(actions@) =~= before.push(actions@.last()@));
                assert(action_views(actions@).drop_last() =~= before);
            }
            let ghost a = actions@.last()@;
            if same_text(&next_region, &current_region) {
                done = true;
                proof {
                    assert(before + seq![a] =~= before.push(a));
                }
            } else {
                current_region = next_region;
                if same_text(&current_region, &potential_field.global_minimum_region) {
                    done = true;
                    proof {
                        assert(before + seq![a] =~= before.push(a));
                    }
                } else {
                    proof {
                        assert(before + (seq![a] + walk(pf, current_region@, step + 1, max_steps as int, spike))
                            =~= before.push(a) + walk(pf, current_region@, step + 1, max_steps as int, spike));
                    }
                }
            }
            step = step + 1;
        }
        proof {
            if !done {
                assert(walk(pf, current_region@, step as int, max_steps as int, spike) =~= Seq::<ActionView>::empty());
                assert(action_views(actions@) + Seq::<ActionView>::empty() =~= action_views(actions@));
            }
        }
    } else {
        proof {
            assert(action_views(actions@) =~= Seq::<ActionView>::empty());
        }
    }
    let convergent_outcome = flow_field.prediction.convergent && total_energy_cost < 500;
    let mut parts: Vec<String> = Vec::new();
    parts.push(actions_json_text(&actions));
    let mut energy_text = String::new();
    push_i64(&mut energy_text, potential_field.global_minimum_energy);
    parts.push(energy_text);
    parts.push(crate::json::json_strs_text(anchor_basis_ids));
    let mut whole = String::new();
    push_json_list(&mut whole, &parts);
    let ghost av = action_views(actions@);
    proof {
        assert(views(parts@) =~= seq![
            json_list(av.map_values(|a: ActionView| action_json(a))),
            dec_int(pf.global_minimum_energy as int),
            json_strs(views(anchor_basis_ids@)),
        ]);
    }
    let canonical_hash = json_hash_text(&whole);
    Ok(EnergyMinimizingTrajectory { actions, total_energy_cost, convergent_outcome, canonical_hash })
}


// ── laws ─────────────────────────────────────────────────────────────────────

proof fn lemma_insert_by_rank_sorted<T>(s: Seq<T>, x: T, rank: spec_fn(T) -> int)
    requires
        forall|i: int, j: int| 0 <= i < j < s.len() ==> rank(#[trigger] s[i]) <= rank(#[trigger] s[j]),
    ensures
        forall|i: int, j: int|
            0 <= i < j < insert_by_rank(s, x, rank).len() ==> rank(#[trigger] insert_by_rank(s, x, rank)[i]) <= rank(
                #[trigger] insert_by_rank(s, x, rank)[j],
            ),
        insert_by_rank(s, x, rank).len() == s.len() + 1,
        forall|k: int| 0 <= k < insert_by_rank(s, x, rank).len() ==> (#[trigger] insert_by_rank(s, x, rank)[k] == x || s.contains(insert_by_rank(s, x, rank)[k])),
    decreases s.len(),
{
    if s.len() > 0 && !(rank(x) < rank(s[0])) {
        let t = s.drop_first();
        assert forall|i: int, j: int| 0 <= i < j < t.len() implies rank(#[trigger] t[i]) <= rank(#[trigger] t[j]) by {
            assert(t[i] == s[i + 1] && t[j] == s[j + 1]);
        }
        lemma_insert_by_rank_sorted(t, x, rank);
        let r = insert_by_rank(s, x, rank);
        let q = insert_by_rank(t, x, rank);
        assert forall|k: int| 0 <= k < r.len() implies (#[trigger] r[k] == x || s.contains(r[k])) by {
            if k == 0 {
                assert(r[0] == s[0]);
            } else {
                assert(r[k] == q[k - 1]);
                if q[k - 1] != x {
                    assert(t.contains(q[k - 1]));
                    let m = choose|m: int| 0 <= m < t.len() && t[m] == q[k - 1];
                    assert(s[m + 1] == q[k - 1]);
                }
            }
        }
        assert forall|i: int, j: int| 0 <= i < j < r.len() implies rank(#[trigger] r[i]) <= rank(#[trigger] r[j]) by {
            if i == 0 {
                assert(r[0] == s[0]);
                assert(r[j] == q[j - 1]);
                if q[j - 1] == x {
                } else {
                    assert(t.contains(q[j - 1]));
                    let m = choose|m: int| 0 <= m < t.len() && t[m] == q[j - 1];
                    assert(s[m + 1] == q[j - 1]);
                }
            } else {
                assert(r[i] == q[i - 1] && r[j] == q[j - 1]);
            }
        }
    } else if s.len() > 0 {
        let r = insert_by_rank(s, x, rank);
        assert forall|k: int| 0 <= k < r.len() implies (#[trigger] r[k] == x || s.contains(r[k])) by {
            if k > 0 {
                assert(r[k] == s[k - 1]);
            }
        }
        assert forall|i: int, j: int| 0 <= i < j < r.len() implies rank(#[trigger] r[i]) <= rank(#[trigger] r[j]) by {
            if i == 0 {
                assert(r[j] == s[j - 1]);
                assert(rank(s[0]) <= rank(s[j - 1]));
            } else {
                assert(r[i] == s[i - 1] && r[j] == s[j - 1]);
            }
        }
    } else {
        let r = insert_by_rank(s, x, rank);
        assert forall|k: int| 0 <= k < r.len() implies (#[trigger] r[k] == x || s.contains(r[k])) by {}
    }
}

/// `ranked` orders by increasing rank.
pub proof fn lemma_ranked_sorted<T>(s: Seq<T>, rank: spec_fn(T) -> int)
    ensures
        forall|i: int, j: int| 0 <= i < j < ranked(s, rank).len() ==> rank(#[trigger] ranked(s, rank)[i]) <= rank(
            #[trigger] ranked(s, rank)[j],
        ),
    decreases s.len(),
{
    if s.len() > 0 {
        lemma_ranked_sorted(s.drop_last(), rank);
        lemma_insert_by_rank_sorted(ranked(s.drop_last(), rank), s.last(), rank);
    }
}

/// The potential field lists its regions by increasing potential, so the
/// global minimum holds the least potential; its gradients come by
/// decreasing gradient.
pub proof fn lemma_potential_order(flow: FlowFieldView)
    ensures
        ({
            let pf = potential_field_of(flow);
            &&& forall|i: int, j: int|
                0 <= i < j < pf.stability_energies.len() ==> (#[trigger] pf.stability_energies[i]).potential
                    <= (#[trigger] pf.stability_energies[j]).potential
            &&& forall|k: int| 0 <= k < pf.stability_energies.len() ==> pf.global_minimum_energy
                <= (#[trigger] pf.stability_energies[k]).potential
            &&& forall|i: int, j: int|
                0 <= i < j < pf.gradients.len() ==> (#[trigger] pf.gradients[i]).gradient >= (#[trigger] pf.gradients[j]).gradient
        }),
{
    let pf = potential_field_of(flow);
    let all = flow.region_vectors.map_values(|rv: RegionFlowView| energy_of_flow(rv));
    lemma_ranked_sorted(all, by_potential());
    let es = pf.stability_energies;
    assert forall|i: int, j: int| 0 <= i < j < es.len() implies (#[trigger] es[i]).potential <= (#[trigger] es[j]).potential by {
        assert((by_potential())(es[i]) <= (by_potential())(es[j]));
    }
    assert forall|k: int| 0 <= k < es.len() implies pf.global_minimum_energy <= (#[trigger] es[k]).potential by {
        if k > 0 {
            assert((by_potential())(es[0]) <= (by_potential())(es[k]));
        }
    }
    let rows = gradient_rows(es, es.len() as int);
    lemma_ranked_sorted(rows, by_falling_gradient());
    let gs = pf.gradients;
    assert forall|i: int, j: int| 0 <= i < j < gs.len() implies (#[trigger] gs[i]).gradient >= (#[trigger] gs[j]).gradient by {
        assert((by_falling_gradient())(gs[i]) <= (by_falling_gradient())(gs[j]));
    }
}

proof fn lemma_candidates_descend(gs: Seq<GradientView>, es: Seq<EnergyView>, cur: Seq<char>, cur_e: int, preferred: bool)
    ensures
        forall|k: int| 0 <= k < candidates(gs, es, cur, cur_e, preferred).len() ==> {
            let c = #[trigger] candidates(gs, es, cur, cur_e, preferred)[k];
            c.delta == potential_at(es, c.target, cur_e) - cur_e && c.delta < 0
        },
    decreases gs.len(),
{
    if gs.len() > 0 {
        lemma_candidates_descend(gs.drop_last(), es, cur, cur_e, preferred);
        let rest = candidates(gs.drop_last(), es, cur, cur_e, preferred);
        let all = candidates(gs, es, cur, cur_e, preferred);
        assert forall|k: int| 0 <= k < all.len() implies {
            let c = #[trigger] all[k];
            c.delta == potential_at(es, c.target, cur_e) - cur_e && c.delta < 0
        } by {
            if k < rest.len() {
                assert(all[k] == rest[k]);
            }
        }
    }
}

/// A chosen move never climbs: it either stays at `cur` or leads to a region
/// of lower potential.
pub proof fn lemma_moves_descend(pf: PotentialView, cur: Seq<char>, aggressive: bool)
    ensures
        ({
            let a = action_of(pf, cur, aggressive);
            let cur_e = potential_at(pf.stability_energies, cur, 1000);
            a.preferred_trajectory == seq![cur] || potential_at(pf.stability_energies, a.preferred_trajectory[0], cur_e) < cur_e
        }),
{
    let es = pf.stability_energies;
    let cur_e = potential_at(es, cur, 1000);
    lemma_candidates_descend(pf.gradients, es, cur, cur_e, true);
    lemma_candidates_descend(pf.gradients, es, cur, cur_e, false);
    let pool = move_pool(pf, cur);
    if pool.len() > 0 {
        lemma_steepest_in(pool);
        lemma_most_efficient_in(pool);
        let c = if aggressive { steepest(pool) } else { most_efficient(pool) };
        let m = choose|m: int| 0 <= m < pool.len() && pool[m] == c;
        assert(pool[m].delta < 0);
        assert(action_of(pf, cur, aggressive).preferred_trajectory[0] == c.target);
    }
}

} // verus!
