//! The topology of consolidated memory: how far apart its anchors are, which
//! anchors neighbour each other, the regions they form, and how that topology
//! drifts from one snapshot to the next.
use vstd::prelude::*;
use crate::cognition::multiframe::{ConsolidatedMemory, EmergentConcept};
use crate::cognition::phase61_structural_recovery::trunc_div;
use crate::geom::invariants::InvariantViolation;
use crate::json::{json_hash, json_hash_text, json_list, json_nats, json_str, json_strs,
    lemma_join_push, push_json_list, push_json_nats, push_json_str, push_json_strs, push_text};
use crate::text::{dec_int, dec_nat, distinct_sorted_texts, join, lemma_strictly_sorted_texts_unique,
    lemma_text_lt_irreflexive, lemma_text_lt_total, lemma_text_lt_transitive, less_than, push_i64,
    push_usize, same_text, strictly_sorted_texts, text, text_lt, views};

verus! {

// ── types ────────────────────────────────────────────────────────────────────

/// How far apart two consolidated memories are, by their anchors, their
/// emergent concepts and their scores (each part on a 0..=1000 scale).
#[derive(Debug, Clone, Copy, PartialEq, Eq, Structural)]
pub struct AnchorRelationalDistance {
    pub score: i64,
    pub anchor_jaccard_distance: i64,
    pub emergent_jaccard_distance: i64,
    pub continuity_delta: i64,
    pub external_delta: i64,
    pub ontology_delta: i64,
}

/// The anchors within `radius` of `center`.
#[derive(Debug, Clone, PartialEq, Eq)]
pub struct TopologicalNeighborhood {
    pub center: String,
    pub neighbors: Vec<String>,
    pub radius: i64,
}

/// A connected group of anchors.
#[derive(Debug, Clone, PartialEq, Eq)]
pub struct TopologicalRegion {
    pub id: String,
    pub members: Vec<String>,
    pub representative: String,
    pub boundary_members: Vec<String>,
    pub cohesion_score: i64,
}

/// Summary figures of a topology.
#[derive(Debug, Clone, Copy, PartialEq, Eq, Structural)]
pub struct TopologyMetrics {
    pub region_count: usize,
    pub total_concepts: usize,
    pub boundary_count: usize,
    pub avg_neighborhood_size: i64,
    pub manifold_stability: i64,
}

/// Neighbourhoods and regions of the anchors of a memory.
#[derive(Debug, Clone, PartialEq, Eq)]
pub struct CognitiveTopology {
    pub neighborhoods: Vec<TopologicalNeighborhood>,
    pub regions: Vec<TopologicalRegion>,
    pub boundary_concepts: Vec<String>,
    pub metrics: TopologyMetrics,
    pub canonical_hash: String,
}

/// How one topology differs from an earlier one.
#[derive(Debug, Clone, PartialEq, Eq)]
pub struct ManifoldDrift {
    pub region_delta: i64,
    pub boundary_delta: i64,
    pub stability_delta: i64,
    pub cohesion_delta: i64,
    pub added_regions: Vec<String>,
    pub removed_regions: Vec<String>,
    pub hash_changed: bool,
    pub drift_score: i64,
}

/// The drift into one snapshot of a series.
#[derive(Debug, Clone, PartialEq, Eq)]
pub struct TopologyEvolutionStep {
    pub step_index: usize,
    pub drift: ManifoldDrift,
    pub is_phase_transition: bool,
    pub topology_hash: String,
}

/// How a series of topologies evolved.
#[derive(Debug, Clone, PartialEq, Eq)]
pub struct ManifoldEvolutionTrace {
    pub steps: Vec<TopologyEvolutionStep>,
    pub persistent_region_ids: Vec<String>,
    pub transient_region_ids: Vec<String>,
    pub phase_transition_steps: Vec<usize>,
    pub overall_stability: i64,
    pub canonical_hash: String,
}

// ── views ────────────────────────────────────────────────────────────────────

pub struct NeighborhoodView {
    pub center: Seq<char>,
    pub neighbors: Seq<Seq<char>>,
    pub radius: i64,
}

pub struct RegionView {
    pub id: Seq<char>,
    pub members: Seq<Seq<char>>,
    pub representative: Seq<char>,
    pub boundary_members: Seq<Seq<char>>,
    pub cohesion_score: i64,
}

pub struct TopologyView {
    pub neighborhoods: Seq<NeighborhoodView>,
    pub regions: Seq<RegionView>,
    pub boundary_concepts: Seq<Seq<char>>,
    pub metrics: TopologyMetrics,
    pub canonical_hash: Seq<char>,
}

pub struct DriftView {
    pub region_delta: i64,
    pub boundary_delta: i64,
    pub stability_delta: i64,
    pub cohesion_delta: i64,
    pub added_regions: Seq<Seq<char>>,
    pub removed_regions: Seq<Seq<char>>,
    pub hash_changed: bool,
    pub drift_score: i64,
}

pub struct StepView {
    pub step_index: usize,
    pub drift: DriftView,
    pub is_phase_transition: bool,
    pub topology_hash: Seq<char>,
}

pub struct TraceView {
    pub steps: Seq<StepView>,
    pub persistent_region_ids: Seq<Seq<char>>,
    pub transient_region_ids: Seq<Seq<char>>,
    pub phase_transition_steps: Seq<usize>,
    pub overall_stability: i64,
    pub canonical_hash: Seq<char>,
}

impl View for TopologicalNeighborhood {
    type V = NeighborhoodView;

    open spec fn view(&self) -> NeighborhoodView {
        NeighborhoodView { center: self.center@, neighbors: views(self.neighbors@), radius: self.radius }
    }
}

impl View for TopologicalRegion {
    type V = RegionView;

    open spec fn view(&self) -> RegionView {
        RegionView {
            id: self.id@,
            members: views(self.members@),
            representative: self.representative@,
            boundary_members: views(self.boundary_members@),
            cohesion_score: self.cohesion_score,
        }
    }
}

pub open spec fn neighborhood_views(s: Seq<TopologicalNeighborhood>) -> Seq<NeighborhoodView> {
    s.map_values(|n: TopologicalNeighborhood| n@)
}

pub open spec fn region_views(s: Seq<TopologicalRegion>) -> Seq<RegionView> {
    s.map_values(|r: TopologicalRegion| r@)
}

impl View for CognitiveTopology {
    type V = TopologyView;

    open spec fn view(&self) -> TopologyView {
        TopologyView {
            neighborhoods: neighborhood_views(self.neighborhoods@),
            regions: region_views(self.regions@),
            boundary_concepts: views(self.boundary_concepts@),
            metrics: self.metrics,
            canonical_hash: self.canonical_hash@,
        }
    }
}

impl View for ManifoldDrift {
    type V = DriftView;

    open spec fn view(&self) -> DriftView {
        DriftView {
            region_delta: self.region_delta,
            boundary_delta: self.boundary_delta,
            stability_delta: self.stability_delta,
            cohesion_delta: self.cohesion_delta,
            added_regions: views(self.added_regions@),
            removed_regions: views(self.removed_regions@),
            hash_changed: self.hash_changed,
            drift_score: self.drift_score,
        }
    }
}

impl View for TopologyEvolutionStep {
    type V = StepView;

    open spec fn view(&self) -> StepView {
        StepView {
            step_index: self.step_index,
            drift: self.drift@,
            is_phase_transition: self.is_phase_transition,
            topology_hash: self.topology_hash@,
        }
    }
}

pub open spec fn step_views(s: Seq<TopologyEvolutionStep>) -> Seq<StepView> {
    s.map_values(|t: TopologyEvolutionStep| t@)
}

impl View for ManifoldEvolutionTrace {
    type V = TraceView;

    open spec fn view(&self) -> TraceView {
        TraceView {
            steps: step_views(self.steps@),
            persistent_region_ids: views(self.persistent_region_ids@),
            transient_region_ids: views(self.transient_region_ids@),
            phase_transition_steps: self.phase_transition_steps@,
            overall_stability: self.overall_stability,
            canonical_hash: self.canonical_hash@,
        }
    }
}

pub open spec fn topology_views(s: Seq<CognitiveTopology>) -> Seq<TopologyView> {
    s.map_values(|t: CognitiveTopology| t@)
}

// ── JSON layouts ─────────────────────────────────────────────────────────────

pub open spec fn neighborhood_json(n: NeighborhoodView) -> Seq<char> {
    "{\"center\":"@ + json_str(n.center) + ",\"neighbors\":"@ + json_strs(n.neighbors)
        + ",\"radius\":"@ + dec_int(n.radius as int) + "}"@
}

pub open spec fn region_json(r: RegionView) -> Seq<char> {
    "{\"id\":"@ + json_str(r.id) + ",\"members\":"@ + json_strs(r.members)
        + ",\"representative\":"@ + json_str(r.representative) + ",\"boundary_members\":"@
        + json_strs(r.boundary_members) + ",\"cohesion_score\":"@ + dec_int(r.cohesion_score as int)
        + "}"@
}

pub open spec fn metrics_json(m: TopologyMetrics) -> Seq<char> {
    "{\"region_count\":"@ + dec_nat(m.region_count as nat) + ",\"total_concepts\":"@ + dec_nat(
        m.total_concepts as nat,
    ) + ",\"boundary_count\":"@ + dec_nat(m.boundary_count as nat) + ",\"avg_neighborhood_size\":"@
        + dec_int(m.avg_neighborhood_size as int) + ",\"manifold_stability\":"@ + dec_int(
        m.manifold_stability as int,
    ) + "}"@
}

pub open spec fn drift_json(d: DriftView) -> Seq<char> {
    "{\"region_delta\":"@ + dec_int(d.region_delta as int) + ",\"boundary_delta\":"@ + dec_int(
        d.boundary_delta as int,
    ) + ",\"stability_delta\":"@ + dec_int(d.stability_delta as int) + ",\"cohesion_delta\":"@
        + dec_int(d.cohesion_delta as int) + ",\"added_regions\":"@ + json_strs(d.added_regions)
        + ",\"removed_regions\":"@ + json_strs(d.removed_regions) + ",\"hash_changed\":"@
        + crate::text::bool_text(d.hash_changed) + ",\"drift_score\":"@ + dec_int(
        d.drift_score as int,
    ) + "}"@
}

pub open spec fn step_json(s: StepView) -> Seq<char> {
    "{\"step_index\":"@ + dec_nat(s.step_index as nat) + ",\"drift\":"@ + drift_json(s.drift)
        + ",\"is_phase_transition\":"@ + crate::text::bool_text(s.is_phase_transition)
        + ",\"topology_hash\":"@ + json_str(s.topology_hash) + "}"@
}

fn neighborhood_json_text(n: &TopologicalNeighborhood) -> (r: String)
    ensures
        r@ == neighborhood_json(n@),
{
    let mut out = String::new();
    out.append("{\"center\":");
    push_json_str(&mut out, n.center.as_str());
    out.append(",\"neighbors\":");
    push_json_strs(&mut out, &n.neighbors);
    out.append(",\"radius\":");
    push_i64(&mut out, n.radius);
    out.append("}");
    out
}

fn region_json_text(r: &TopologicalRegion) -> (s: String)
    ensures
        s@ == region_json(r@),
{
    let mut out = String::new();
    out.append("{\"id\":");
    push_json_str(&mut out, r.id.as_str());
    out.append(",\"members\":");
    push_json_strs(&mut out, &r.members);
    out.append(",\"representative\":");
    push_json_str(&mut out, r.representative.as_str());
    out.append(",\"boundary_members\":");
    push_json_strs(&mut out, &r.boundary_members);
    out.append(",\"cohesion_score\":");
    push_i64(&mut out, r.cohesion_score);
    out.append("}");
    out
}

fn metrics_json_text(m: &TopologyMetrics) -> (s: String)
    ensures
        s@ == metrics_json(*m),
{
    let mut out = String::new();
    out.append("{\"region_count\":");
    push_usize(&mut out, m.region_count);
    out.append(",\"total_concepts\":");
    push_usize(&mut out, m.total_concepts);
    out.append(",\"boundary_count\":");
    push_usize(&mut out, m.boundary_count);
    out.append(",\"avg_neighborhood_size\":");
    push_i64(&mut out, m.avg_neighborhood_size);
    out.append(",\"manifold_stability\":");
    push_i64(&mut out, m.manifold_stability);
    out.append("}");
    out
}

fn drift_json_text(d: &ManifoldDrift) -> (s: String)
    ensures
        s@ == drift_json(d@),
{
    let mut out = String::new();
    out.append("{\"region_delta\":");
    push_i64(&mut out, d.region_delta);
    out.append(",\"boundary_delta\":");
    push_i64(&mut out, d.boundary_delta);
    out.append(",\"stability_delta\":");
    push_i64(&mut out, d.stability_delta);
    out.append(",\"cohesion_delta\":");
    push_i64(&mut out, d.cohesion_delta);
    out.append(",\"added_regions\":");
    push_json_strs(&mut out, &d.added_regions);
    out.append(",\"removed_regions\":");
    push_json_strs(&mut out, &d.removed_regions);
    out.append(",\"hash_changed\":");
    crate::text::push_bool(&mut out, d.hash_changed);
    out.append(",\"drift_score\":");
    push_i64(&mut out, d.drift_score);
    out.append("}");
    out
}

fn step_json_text(s: &TopologyEvolutionStep) -> (r: String)
    ensures
        r@ == step_json(s@),
{
    let mut out = String::new();
    out.append("{\"step_index\":");
    push_usize(&mut out, s.step_index);
    out.append(",\"drift\":");
    let d = drift_json_text(&s.drift);
    push_text(&mut out, &d);
    out.append(",\"is_phase_transition\":");
    crate::text::push_bool(&mut out, s.is_phase_transition);
    out.append(",\"topology_hash\":");
    push_json_str(&mut out, s.topology_hash.as_str());
    out.append("}");
    out
}


// ── relational distance between memories ────────────────────────────────────

/// More texts than a vector can hold on a machine whose user address space
/// spans 2^48 bytes (each `String` takes 24 bytes).
pub const MAX_TEXTS: u64 = 0x1000_0000_0000;

/// `|a − b|` capped at 1000.
pub open spec fn capped_gap(a: int, b: int) -> int {
    let d = if a >= b { a - b } else { b - a };
    if d < 1000 { d } else { 1000 }
}

/// The Jaccard distance of the texts in `a` and `b` (as sets), scaled to
/// `scale` (at least 1); 0 when both are empty.
pub open spec fn jaccard_scaled(a: Seq<Seq<char>>, b: Seq<Seq<char>>, scale: int) -> int {
    let sa = a.to_set();
    let sb = b.to_set();
    let u = sa.union(sb).len() as int;
    let i = sa.intersect(sb).len() as int;
    if sa.len() == 0 && sb.len() == 0 {
        0
    } else {
        ((u - i) * (if scale >= 1 { scale } else { 1 })) / (if u >= 1 { u } else { 1 })
    }
}

/// The ids of the emergent concepts of a memory.
pub open spec fn emergent_ids(m: ConsolidatedMemory) -> Seq<Seq<char>> {
    m.emergent_concepts@.map_values(|c: EmergentConcept| c.id@)
}

/// The relational distance of two memories.
pub open spec fn relational_distance(a: ConsolidatedMemory, b: ConsolidatedMemory) -> AnchorRelationalDistance {
    let aj = jaccard_scaled(views(a.anchor_basis_ids@), views(b.anchor_basis_ids@), 1000);
    let ej = jaccard_scaled(emergent_ids(a), emergent_ids(b), 1000);
    let cd = capped_gap(a.self_continuity_score as int, b.self_continuity_score as int);
    let xd = capped_gap(a.external_change_score as int, b.external_change_score as int);
    let od = capped_gap(a.ontology_expansion_score as int, b.ontology_expansion_score as int);
    AnchorRelationalDistance {
        score: ((aj * 3 + ej * 2 + cd + xd + od) / 8) as i64,
        anchor_jaccard_distance: aj as i64,
        emergent_jaccard_distance: ej as i64,
        continuity_delta: cd as i64,
        external_delta: xd as i64,
        ontology_delta: od as i64,
    }
}

/// `|a − b|` is an `i64` (the difference neither overflows nor is `i64::MIN`).
pub open spec fn gap_fits(a: i64, b: i64) -> bool {
    -(i64::MAX as int) <= a - b <= i64::MAX
}

fn capped_gap_of(a: i64, b: i64) -> (d: i64)
    requires
        gap_fits(a, b),
    ensures
        d == capped_gap(a as int, b as int),
{
    let diff = a - b;
    let g = if diff < 0 {
        -diff
    } else {
        diff
    };
    if g < 1000 {
        g
    } else {
        1000
    }
}

fn jaccard_distance_scaled(a: &Vec<String>, b: &Vec<String>, scale: i64) -> (d: i64)
    requires
        a@.len() <= MAX_TEXTS,
        b@.len() <= MAX_TEXTS,
        scale <= 1000,
    ensures
        d == jaccard_scaled(views(a@), views(b@), scale as int),
        0 <= d <= 1000,
{
    let da = distinct_sorted_texts(a);
    let db = distinct_sorted_texts(b);
    let ghost sa = views(a@).to_set();
    let ghost sb = views(b@).to_set();
    proof {
        crate::text::lemma_strictly_sorted_no_duplicates(views(da@));
        crate::text::lemma_strictly_sorted_no_duplicates(views(db@));
        views(a@).lemma_cardinality_of_set();
        views(b@).lemma_cardinality_of_set();
    }
    if da.len() == 0 && db.len() == 0 {
        return 0;
    }
    let mut inter: usize = 0;
    let mut i: usize = 0;
    let ghost dv = views(da@);
    assert(dv.subrange(0, 0).to_set().intersect(sb) =~= Set::<Seq<char>>::empty());
    while i < da.len()
        invariant
            i <= da@.len(),
            dv == views(da@),
            dv.no_duplicates(),
            dv.to_set() == sa,
            views(db@).to_set() == sb,
            inter == dv.subrange(0, i as int).to_set().intersect(sb).len(),
            inter <= i,
        decreases da@.len() - i,
    {
        let ghost prev = dv.subrange(0, i as int).to_set().intersect(sb);
        let inb = has_text_in(&db, da[i].as_str());
        proof {
            assert(dv.subrange(0, i + 1) =~= dv.subrange(0, i as int).push(dv[i as int]));
            let next = dv.subrange(0, i + 1).to_set().intersect(sb);
            assert(!dv.subrange(0, i as int).contains(dv[i as int])) by {
                if dv.subrange(0, i as int).contains(dv[i as int]) {
                    let k = choose|k: int| 0 <= k < i && dv.subrange(0, i as int)[k] == dv[i as int];
                    assert(dv[k] == dv[i as int]);
                }
            }
            vstd::seq_lib::seq_to_set_is_finite(dv.subrange(0, i as int));
            dv.subrange(0, i as int).lemma_push_to_set_commute(dv[i as int]);
            assert(!prev.contains(dv[i as int]));
            if inb {
                assert(next =~= prev.insert(dv[i as int]));
            } else {
                assert(next =~= prev);
            }
        }
        if inb {
            inter = inter + 1;
        }
        i = i + 1;
    }
    assert(dv.subrange(0, da@.len() as int) =~= dv);
    let ghost u = sa.union(sb).len();
    proof {
        vstd::set_lib::lemma_set_intersect_union_lens(sa, sb);
        assert(sa + sb == sa.union(sb));
    }
    proof {
        vstd::set_lib::lemma_len_intersect(sa, sb);
        assert(sa.intersect(sb) =~= sb.intersect(sa));
        vstd::set_lib::lemma_len_intersect(sb, sa);
    }
    let union = (da.len() as u64) + (db.len() as u64) - (inter as u64);
    let sc: i64 = if scale >= 1 {
        scale
    } else {
        1
    };
    let uu = union as i64;
    proof {
        assert(union as int == u);
        assert(union >= 1) by {
            if union == 0 {
                vstd::set_lib::lemma_set_empty_equivalency_len(sa.union(sb));
                assert(sa.union(sb) == Set::<Seq<char>>::empty());
                if sa.len() > 0 {
                    let x = sa.choose();
                    assert(sa.union(sb).contains(x));
                }
                if sb.len() > 0 {
                    let x = sb.choose();
                    assert(sa.union(sb).contains(x));
                }
            }
        }
    }
    let num = (union - (inter as u64)) as i64;
    assert(num * sc <= 0x4000_0000_0000 * 1000) by (nonlinear_arith)
        requires
            0 <= num <= 0x4000_0000_0000,
            1 <= sc <= 1000,
    ;
    proof {
        vstd::set_lib::lemma_len_intersect(sa, sb);
    }
    proof {
        lemma_scaled_ratio_bounded(num as int, uu as int, sc as int);
    }
    (num * sc) / uu
}

pub(crate) proof fn lemma_scaled_ratio_bounded(num: int, u: int, sc: int)
    requires
        0 <= num <= u,
        1 <= u,
        1 <= sc,
    ensures
        0 <= (num * sc) / u <= sc,
{
    assert(num * sc <= u * sc) by (nonlinear_arith)
        requires
            0 <= num <= u,
            1 <= sc,
    ;
    assert(0 <= num * sc) by (nonlinear_arith)
        requires
            0 <= num,
            1 <= sc,
    ;
    vstd::arithmetic::div_mod::lemma_div_is_ordered(num * sc, u * sc, u);
    vstd::arithmetic::div_mod::lemma_div_multiples_vanish(sc, u);
    vstd::arithmetic::div_mod::lemma_div_pos_is_pos(num * sc, u);
}

/// Whether `s` is one of the texts of `v` (a short name for `has_text`).
fn has_text_in(v: &Vec<String>, s: &str) -> (r: bool)
    ensures
        r == views(v@).to_set().contains(s@),
{
    crate::text::has_text(v, s)
}

fn emergent_id_list(m: &ConsolidatedMemory) -> (r: Vec<String>)
    ensures
        views(r@) == emergent_ids(*m),
        r@.len() == m.emergent_concepts@.len(),
{
    let mut out: Vec<String> = Vec::new();
    let mut i: usize = 0;
    while i < m.emergent_concepts.len()
        invariant
            i <= m.emergent_concepts@.len(),
            out@.len() == i,
            views(out@) == emergent_ids(*m).subrange(0, i as int),
        decreases m.emergent_concepts@.len() - i,
    {
        let ghost before = out@;
        out.push(m.emergent_concepts[i].id.clone());
        proof {
            assert(out@ =~= before.push(out@[i as int]));
            assert(views(out@) =~= views(before).push(out@[i as int]@));
        }
        i = i + 1;
        assert(views(out@) =~= emergent_ids(*m).subrange(0, i as int));
    }
    assert(emergent_ids(*m).subrange(0, i as int) =~= emergent_ids(*m));
    out
}

/// How far apart two consolidated memories are: the Jaccard distances of
/// their anchor sets (weight 3) and emergent concept sets (weight 2), and the
/// gaps between their three scores (each capped at 1000), averaged over 8.
pub fn anchor_derived_relational_distance(a: &ConsolidatedMemory, b: &ConsolidatedMemory) -> (d: AnchorRelationalDistance)
    requires
        a.anchor_basis_ids@.len() <= MAX_TEXTS,
        b.anchor_basis_ids@.len() <= MAX_TEXTS,
        a.emergent_concepts@.len() <= MAX_TEXTS,
        b.emergent_concepts@.len() <= MAX_TEXTS,
        gap_fits(a.self_continuity_score, b.self_continuity_score),
        gap_fits(a.external_change_score, b.external_change_score),
        gap_fits(a.ontology_expansion_score, b.ontology_expansion_score),
    ensures
        d == relational_distance(*a, *b),
{
    let anchor_jaccard_distance = jaccard_distance_scaled(&a.anchor_basis_ids, &b.anchor_basis_ids, 1000);
    let ea = emergent_id_list(a);
    let eb = emergent_id_list(b);
    let emergent_jaccard_distance = jaccard_distance_scaled(&ea, &eb, 1000);
    let continuity_delta = capped_gap_of(a.self_continuity_score, b.self_continuity_score);
    let external_delta = capped_gap_of(a.external_change_score, b.external_change_score);
    let ontology_delta = capped_gap_of(a.ontology_expansion_score, b.ontology_expansion_score);
    let score = (anchor_jaccard_distance * 3 + emergent_jaccard_distance * 2 + continuity_delta
        + external_delta + ontology_delta) / 8;
    AnchorRelationalDistance {
        score,
        anchor_jaccard_distance,
        emergent_jaccard_distance,
        continuity_delta,
        external_delta,
        ontology_delta,
    }
}


// ── drift between topologies ─────────────────────────────────────────────────

/// The region ids of a topology, in its order.
pub open spec fn region_ids(t: TopologyView) -> Seq<Seq<char>> {
    t.regions.map_values(|r: RegionView| r.id)
}

/// The sum of the cohesion scores of `rs`.
pub open spec fn cohesion_total(rs: Seq<RegionView>) -> int
    decreases rs.len(),
{
    if rs.len() == 0 {
        0
    } else {
        cohesion_total(rs.drop_last()) + rs.last().cohesion_score
    }
}

/// The mean cohesion of `rs` (rounded toward zero), 0 without regions.
pub open spec fn cohesion_mean(rs: Seq<RegionView>) -> int {
    if rs.len() == 0 {
        0
    } else {
        trunc_div(cohesion_total(rs), rs.len() as int)
    }
}

pub open spec fn abs_int(x: int) -> int {
    if x < 0 { -x } else { x }
}

/// The difference of two counts, each taken as an `i64`.
pub open spec fn count_delta(after: usize, before: usize) -> int {
    (after as i64) as int - (before as i64) as int
}

/// Regions that `b` has and `a` has not.
pub open spec fn added_ids(a: TopologyView, b: TopologyView) -> Set<Seq<char>> {
    region_ids(b).to_set().difference(region_ids(a).to_set())
}

/// The drift score: region count change (×300), boundary change (×100),
/// stability and mean cohesion changes (÷10), and 200 per region that
/// appeared or disappeared.
pub open spec fn drift_score(a: TopologyView, b: TopologyView) -> int {
    abs_int(count_delta(b.metrics.region_count, a.metrics.region_count)) * 300 + abs_int(
        count_delta(b.metrics.boundary_count, a.metrics.boundary_count),
    ) * 100 + abs_int(b.metrics.manifold_stability - a.metrics.manifold_stability) / 10 + abs_int(
        cohesion_mean(b.regions) - cohesion_mean(a.regions),
    ) / 10 + added_ids(a, b).len() * 200 + added_ids(b, a).len() * 200
}

/// How `b` differs from `a`.
pub open spec fn drift_of(a: TopologyView, b: TopologyView) -> DriftView {
    DriftView {
        region_delta: count_delta(b.metrics.region_count, a.metrics.region_count) as i64,
        boundary_delta: count_delta(b.metrics.boundary_count, a.metrics.boundary_count) as i64,
        stability_delta: (b.metrics.manifold_stability - a.metrics.manifold_stability) as i64,
        cohesion_delta: (cohesion_mean(b.regions) - cohesion_mean(a.regions)) as i64,
        added_regions: crate::text::listing(added_ids(a, b)),
        removed_regions: crate::text::listing(added_ids(b, a)),
        hash_changed: a.canonical_hash != b.canonical_hash,
        drift_score: drift_score(a, b) as i64,
    }
}

/// Every running sum of the cohesion scores is an `i64`.
pub open spec fn cohesion_sums_fit(rs: Seq<RegionView>) -> bool {
    forall|k: int| 0 <= k <= rs.len() ==> i64::MIN <= #[trigger] cohesion_total(rs.take(k)) <= i64::MAX
}

/// Comparing `a` with `b` overflows nowhere: every delta and its absolute
/// value, the running cohesion sums and the drift score are `i64`s.
pub open spec fn drift_fits(a: TopologyView, b: TopologyView) -> bool {
    &&& a.regions.len() <= MAX_TEXTS
    &&& b.regions.len() <= MAX_TEXTS
    &&& cohesion_sums_fit(a.regions)
    &&& cohesion_sums_fit(b.regions)
    &&& abs_int(count_delta(b.metrics.region_count, a.metrics.region_count)) <= i64::MAX
    &&& abs_int(count_delta(b.metrics.boundary_count, a.metrics.boundary_count)) <= i64::MAX
    &&& abs_int(b.metrics.manifold_stability - a.metrics.manifold_stability) <= i64::MAX
    &&& abs_int(cohesion_mean(b.regions) - cohesion_mean(a.regions)) <= i64::MAX
    &&& abs_int(count_delta(b.metrics.region_count, a.metrics.region_count)) * 300 <= i64::MAX
    &&& abs_int(count_delta(b.metrics.region_count, a.metrics.region_count)) * 300 + abs_int(
        count_delta(b.metrics.boundary_count, a.metrics.boundary_count),
    ) * 100 <= i64::MAX
    &&& drift_score(a, b) <= i64::MAX
}

fn region_id_list(t: &CognitiveTopology) -> (r: Vec<String>)
    ensures
        views(r@) == region_ids(t@),
        r@.len() == t.regions@.len(),
{
    let mut out: Vec<String> = Vec::new();
    let mut i: usize = 0;
    while i < t.regions.len()
        invariant
            i <= t.regions@.len(),
            out@.len() == i,
            views(out@) == region_ids(t@).subrange(0, i as int),
        decreases t.regions@.len() - i,
    {
        let ghost before = out@;
        out.push(t.regions[i].id.clone());
        proof {
            assert(out@ =~= before.push(out@[i as int]));
            assert(views(out@) =~= views(before).push(out@[i as int]@));
        }
        i = i + 1;
        assert(views(out@) =~= region_ids(t@).subrange(0, i as int));
    }
    assert(region_ids(t@).subrange(0, i as int) =~= region_ids(t@));
    out
}

fn mean_cohesion(t: &CognitiveTopology) -> (m: i64)
    requires
        t@.regions.len() <= MAX_TEXTS,
        cohesion_sums_fit(t@.regions),
    ensures
        m == cohesion_mean(t@.regions),
{
    let ghost rs = t@.regions;
    if t.regions.len() == 0 {
        return 0;
    }
    let mut sum: i64 = 0;
    let mut i: usize = 0;
    assert(rs.take(0) =~= Seq::<RegionView>::empty());
    while i < t.regions.len()
        invariant
            rs == t@.regions,
            i <= rs.len(),
            cohesion_sums_fit(rs),
            sum == cohesion_total(rs.take(i as int)),
        decreases rs.len() - i,
    {
        proof {
            assert(rs.take(i + 1).drop_last() =~= rs.take(i as int));
            assert(rs.take(i + 1).last() == rs[i as int]);
            assert(i64::MIN <= cohesion_total(rs.take(i + 1)) <= i64::MAX);
        }
        sum = sum + t.regions[i].cohesion_score;
        i = i + 1;
    }
    assert(rs.take(rs.len() as int) =~= rs);
    sum / (t.regions.len() as i64)
}

fn abs_of(x: i64) -> (r: i64)
    requires
        abs_int(x as int) <= i64::MAX,
    ensures
        r == abs_int(x as int),
{
    if x < 0 {
        -x
    } else {
        x
    }
}

/// How topology `b` differs from the earlier topology `a`: the changes of
/// region count, boundary count, stability and mean cohesion, the region ids
/// that appeared and disappeared (each in increasing order), whether the
/// canonical hash changed, and the drift score that weighs them.
pub fn compare_topologies(a: &CognitiveTopology, b: &CognitiveTopology) -> (d: ManifoldDrift)
    requires
        drift_fits(a@, b@),
    ensures
        d@ == drift_of(a@, b@),
{
    let a_ids = region_id_list(a);
    let b_ids = region_id_list(b);
    let da = distinct_sorted_texts(&a_ids);
    let db = distinct_sorted_texts(&b_ids);
    let added_regions = crate::text::texts_not_in(&db, &a_ids);
    let removed_regions = crate::text::texts_not_in(&da, &b_ids);
    proof {
        crate::text::lemma_listing(views(added_regions@));
        crate::text::lemma_listing(views(removed_regions@));
        crate::text::lemma_strictly_sorted_no_duplicates(views(added_regions@));
        crate::text::lemma_strictly_sorted_no_duplicates(views(removed_regions@));
        assert(views(added_regions@).to_set() == added_ids(a@, b@));
        assert(views(removed_regions@).to_set() == added_ids(b@, a@));
        vstd::set_lib::lemma_len_subset(added_ids(a@, b@), region_ids(b@).to_set());
        vstd::set_lib::lemma_len_subset(added_ids(b@, a@), region_ids(a@).to_set());
        region_ids(b@).lemma_cardinality_of_set();
        region_ids(a@).lemma_cardinality_of_set();
    }
    let region_delta = (b.metrics.region_count as i64) - (a.metrics.region_count as i64);
    let boundary_delta = (b.metrics.boundary_count as i64) - (a.metrics.boundary_count as i64);
    let stability_delta = b.metrics.manifold_stability - a.metrics.manifold_stability;
    let a_cohesion = mean_cohesion(a);
    let b_cohesion = mean_cohesion(b);
    let cohesion_delta = b_cohesion - a_cohesion;
    let drift_score = abs_of(region_delta) * 300 + abs_of(boundary_delta) * 100 + abs_of(stability_delta) / 10
        + abs_of(cohesion_delta) / 10 + (added_regions.len() as i64) * 200 + (removed_regions.len()
        as i64) * 200;
    let hash_changed = !same_text(&a.canonical_hash, &b.canonical_hash);
    ManifoldDrift {
        region_delta,
        boundary_delta,
        stability_delta,
        cohesion_delta,
        added_regions,
        removed_regions,
        hash_changed,
        drift_score,
    }
}

/// A drift is a phase transition when its score reaches `threshold` (at
/// least 1) or a region appeared or disappeared.
pub fn detect_phase_transition(drift: &ManifoldDrift, threshold: i64) -> (r: bool)
    ensures
        r == (drift.drift_score >= (if threshold >= 1 { threshold } else { 1 })
            || drift.added_regions@.len() > 0 || drift.removed_regions@.len() > 0),
{
    let t: i64 = if threshold >= 1 {
        threshold
    } else {
        1
    };
    drift.drift_score >= t || drift.added_regions.len() > 0 || drift.removed_regions.len() > 0
}


// ── anchor graph ─────────────────────────────────────────────────────────────

/// The part of an anchor id before its first `:` (the whole id without one).
pub open spec fn before_colon(a: Seq<char>) -> Seq<char>
    decreases a.len(),
{
    if a.len() == 0 {
        Seq::empty()
    } else if a[0] == ':' {
        Seq::empty()
    } else {
        seq![a[0]] + before_colon(a.drop_first())
    }
}

/// The basis anchors of each emergent concept of a memory.
pub open spec fn memory_bases(m: ConsolidatedMemory) -> Seq<Seq<Seq<char>>> {
    m.emergent_concepts@.map_values(|c: EmergentConcept| views(c.basis_anchors@))
}

/// How many of the basis lists hold both `a` and `b`.
pub open spec fn shared_count(bases: Seq<Seq<Seq<char>>>, a: Seq<char>, b: Seq<char>) -> nat
    decreases bases.len(),
{
    if bases.len() == 0 {
        0
    } else {
        shared_count(bases.drop_last(), a, b) + (if bases.last().contains(a) && bases.last().contains(b) {
            1nat
        } else {
            0nat
        })
    }
}

/// The distance of two anchors: 0 for the same anchor; otherwise 600 when
/// their subjects (the part before `:`) agree and 1000 when not, less 200
/// for every emergent concept that both underlie, never below 0.
pub open spec fn pair_distance(a: Seq<char>, b: Seq<char>, bases: Seq<Seq<Seq<char>>>) -> int {
    if a == b {
        0
    } else {
        let start = if before_colon(a) == before_colon(b) { 600int } else { 1000int };
        let d = start - 200 * shared_count(bases, a, b);
        if d > 0 { d } else { 0 }
    }
}

/// `b` is an anchor of `cs` other than `a` within distance `t` of it.
pub open spec fn linked(cs: Seq<Seq<char>>, bases: Seq<Seq<Seq<char>>>, t: int, a: Seq<char>, b: Seq<char>) -> bool {
    cs.contains(b) && a != b && pair_distance(a, b, bases) <= t
}

/// No link leads out of `c`.
pub open spec fn closed_under(cs: Seq<Seq<char>>, bases: Seq<Seq<Seq<char>>>, t: int, c: Set<Seq<char>>) -> bool {
    forall|a: Seq<char>, b: Seq<char>| #[trigger] c.contains(a) && #[trigger] linked(cs, bases, t, a, b) ==> c.contains(b)
}

/// The anchors connected to `start` by chains of links: those in every set
/// that holds `start` and that no link leads out of.
pub open spec fn component(cs: Seq<Seq<char>>, bases: Seq<Seq<Seq<char>>>, t: int, start: Seq<char>) -> Set<Seq<char>> {
    Set::new(
        |x: Seq<char>|
            forall|c: Set<Seq<char>>| #[trigger] closed_under(cs, bases, t, c) && c.contains(start) ==> c.contains(x),
    )
}

fn subject_of(a: &str) -> (r: String)
    ensures
        r@ == before_colon(a@),
{
    let n = a.unicode_len();
    let mut k: usize = 0;
    while k < n && a.get_char(k) != ':'
        invariant
            n == a@.len(),
            k <= n,
            forall|i: int| 0 <= i < k ==> a@[i] != ':',
        decreases n - k,
    {
        k = k + 1;
    }
    proof {
        lemma_before_colon(a@, k as int);
    }
    a.substring_char(0, k).to_string()
}

proof fn lemma_before_colon(a: Seq<char>, k: int)
    requires
        0 <= k <= a.len(),
        forall|i: int| 0 <= i < k ==> a[i] != ':',
        k < a.len() ==> a[k] == ':',
    ensures
        before_colon(a) == a.subrange(0, k),
    decreases k,
{
    if k == 0 {
        assert(a.subrange(0, 0) =~= Seq::<char>::empty());
    } else {
        let t = a.drop_first();
        assert forall|i: int| 0 <= i < k - 1 implies t[i] != ':' by {
            assert(t[i] == a[i + 1]);
        }
        if k - 1 < t.len() {
            assert(t[k - 1] == a[k]);
        }
        lemma_before_colon(t, k - 1);
        assert(a.subrange(0, k) =~= seq![a[0]] + t.subrange(0, k - 1));
    }
}

fn pairwise_anchor_distance(a: &String, b: &String, memory: &ConsolidatedMemory) -> (d: i64)
    ensures
        d == pair_distance(a@, b@, memory_bases(*memory)),
        0 <= d <= 1000,
{
    if same_text(a, b) {
        return 0;
    }
    let mut distance: i64 = 1000;
    let sa = subject_of(a.as_str());
    let sb = subject_of(b.as_str());
    if same_text(&sa, &sb) {
        distance = distance - 400;
    }
    let ghost start: int = distance as int;
    let ghost bases = memory_bases(*memory);
    let mut i: usize = 0;
    while i < memory.emergent_concepts.len()
        invariant
            i <= memory.emergent_concepts@.len(),
            bases == memory_bases(*memory),
            start == 600 || start == 1000,
            0 <= distance <= 1000,
            distance == (if start - 200 * shared_count(bases.subrange(0, i as int), a@, b@) > 0 {
                start - 200 * shared_count(bases.subrange(0, i as int), a@, b@)
            } else {
                0
            }),
        decreases memory.emergent_concepts@.len() - i,
    {
        let concept = &memory.emergent_concepts[i];
        let has_a = crate::text::has_text(&concept.basis_anchors, a.as_str());
        let has_b = crate::text::has_text(&concept.basis_anchors, b.as_str());
        proof {
            let t = bases.subrange(0, i + 1);
            assert(t.drop_last() =~= bases.subrange(0, i as int));
            assert(t.last() == views(concept.basis_anchors@));
        }
        if has_a && has_b {
            distance = if distance - 200 > 0 {
                distance - 200
            } else {
                0
            };
        }
        i = i + 1;
    }
    assert(bases.subrange(0, i as int) =~= bases);
    distance
}

/// A duplicate-free sequence drawn from `cs` is no longer than `cs`.
proof fn lemma_distinct_within(v: Seq<Seq<char>>, cs: Seq<Seq<char>>)
    requires
        v.no_duplicates(),
        forall|k: int| 0 <= k < v.len() ==> cs.contains(#[trigger] v[k]),
    ensures
        v.len() <= cs.len(),
{
    v.unique_seq_to_set();
    assert(v.to_set().subset_of(cs.to_set())) by {
        assert forall|x: Seq<char>| v.to_set().contains(x) implies cs.to_set().contains(x) by {
            let k = choose|k: int| 0 <= k < v.len() && v[k] == x;
        }
    }
    vstd::seq_lib::seq_to_set_is_finite(cs);
    vstd::set_lib::lemma_len_subset(v.to_set(), cs.to_set());
    cs.lemma_cardinality_of_set();
}

/// The anchors of `cs` connected to `cs[start]`, without repeats.
fn component_of(cs: &Vec<String>, memory: &ConsolidatedMemory, t: i64, start: usize) -> (r: Vec<String>)
    requires
        start < cs@.len(),
    ensures
        views(r@).no_duplicates(),
        views(r@).to_set() == component(views(cs@), memory_bases(*memory), t as int, views(cs@)[start as int]),
        r@.len() >= 1,
        r@.len() <= cs@.len(),
        views(r@)[0] == views(cs@)[start as int],
{
    let ghost cv = views(cs@);
    let ghost bases = memory_bases(*memory);
    let ghost s0 = cv[start as int];
    let ghost comp_set = component(cv, bases, t as int, s0);
    let mut comp: Vec<String> = Vec::new();
    comp.push(cs[start].clone());
    proof {
        assert(views(comp@) =~= seq![s0]);
        assert(comp_set.contains(s0));
        assert(cv.contains(s0));
    }
    let mut qi: usize = 0;
    while qi < comp.len()
        invariant
            cv == views(cs@),
            bases == memory_bases(*memory),
            s0 == cv[start as int],
            comp_set == component(cv, bases, t as int, s0),
            views(comp@).no_duplicates(),
            comp@.len() >= 1,
            views(comp@)[0] == s0,
            qi <= comp@.len() <= cv.len(),
            forall|k: int| 0 <= k < comp@.len() ==> cv.contains(#[trigger] views(comp@)[k]),
            forall|k: int| 0 <= k < comp@.len() ==> comp_set.contains(#[trigger] views(comp@)[k]),
            forall|k: int, b: Seq<char>|
                0 <= k < qi && #[trigger] linked(cv, bases, t as int, views(comp@)[k], b) ==> views(comp@).contains(b),
        decreases cv.len() - qi,
    {
        let node = comp[qi].clone();
        let ghost nv = node@;
        let mut j: usize = 0;
        while j < cs.len()
            invariant
                cv == views(cs@),
                bases == memory_bases(*memory),
                s0 == cv[start as int],
                comp_set == component(cv, bases, t as int, s0),
                views(comp@).no_duplicates(),
                comp@.len() >= 1,
                views(comp@)[0] == s0,
                qi < comp@.len() <= cv.len(),
                views(comp@)[qi as int] == nv,
                node@ == nv,
                j <= cv.len(),
                forall|k: int| 0 <= k < comp@.len() ==> cv.contains(#[trigger] views(comp@)[k]),
                forall|k: int| 0 <= k < comp@.len() ==> comp_set.contains(#[trigger] views(comp@)[k]),
                forall|k: int, b: Seq<char>|
                    0 <= k < qi && #[trigger] linked(cv, bases, t as int, views(comp@)[k], b) ==> views(comp@).contains(b),
                forall|jj: int| 0 <= jj < j && #[trigger] linked(cv, bases, t as int, nv, cv[jj]) ==> views(comp@).contains(cv[jj]),
            decreases cv.len() - j,
        {
            let ghost before = views(comp@);
            let other = &cs[j];
            let is_link = !same_text(other, &node) && pairwise_anchor_distance(&node, other, memory) <= t;
            proof {
                assert(cv[j as int] == other@);
                assert(cv.contains(other@));
                assert(is_link == linked(cv, bases, t as int, nv, cv[j as int]));
            }
            if is_link && !crate::text::has_text(&comp, other.as_str()) {
                comp.push(other.clone());
                proof {
                    let now = views(comp@);
                    assert(now =~= before.push(other@));
                    assert(comp_set.contains(other@)) by {
                        assert forall|c: Set<Seq<char>>| #[trigger] closed_under(cv, bases, t as int, c) && c.contains(s0) implies c.contains(other@) by {
                            assert(comp_set.contains(nv));
                            assert(c.contains(nv));
                            assert(linked(cv, bases, t as int, nv, other@));
                        }
                    }
                    assert forall|a: int, b: int| 0 <= a < now.len() && 0 <= b < now.len() && a != b implies now[a] != now[b] by {
                        if a == now.len() - 1 {
                            assert(!before.contains(other@));
                            assert(now[b] == before[b]);
                        } else if b == now.len() - 1 {
                            assert(!before.contains(other@));
                            assert(now[a] == before[a]);
                        } else {
                            assert(now[a] == before[a]);
                            assert(now[b] == before[b]);
                        }
                    }
                    assert forall|k: int| 0 <= k < now.len() implies cv.contains(#[trigger] now[k]) by {
                        if k < before.len() {
                            assert(now[k] == before[k]);
                        }
                    }
                    lemma_distinct_within(now, cv);
                    assert forall|k: int, b: Seq<char>|
                        0 <= k < qi && #[trigger] linked(cv, bases, t as int, now[k], b) implies now.contains(b) by {
                        assert(now[k] == before[k]);
                        assert(before.contains(b));
                        let m = choose|m: int| 0 <= m < before.len() && before[m] == b;
                        assert(now[m] == b);
                    }
                    assert forall|jj: int| 0 <= jj < j + 1 && #[trigger] linked(cv, bases, t as int, nv, cv[jj]) implies now.contains(cv[jj]) by {
                        if jj < j {
                            assert(before.contains(cv[jj]));
                            let m = choose|m: int| 0 <= m < before.len() && before[m] == cv[jj];
                            assert(now[m] == cv[jj]);
                        } else {
                            assert(now[now.len() - 1] == cv[jj]);
                        }
                    }
                }
            }
            j = j + 1;
        }
        proof {
            let now = views(comp@);
            assert forall|k: int, b: Seq<char>|
                0 <= k < qi + 1 && #[trigger] linked(cv, bases, t as int, now[k], b) implies now.contains(b) by {
                if k == qi {
                    let jj = choose|jj: int| 0 <= jj < cv.len() && cv[jj] == b;
                    assert(linked(cv, bases, t as int, nv, cv[jj]));
                }
            }
        }
        qi = qi + 1;
    }
    proof {
        let now = views(comp@);
        assert(closed_under(cv, bases, t as int, now.to_set())) by {
            assert forall|a: Seq<char>, b: Seq<char>| #[trigger] now.to_set().contains(a) && #[trigger] linked(cv, bases, t as int, a, b) implies now.to_set().contains(b) by {
                let k = choose|k: int| 0 <= k < now.len() && now[k] == a;
                assert(linked(cv, bases, t as int, now[k], b));
            }
        }
        assert(now.to_set().contains(s0)) by {
            assert(now[0] == s0);
        }
        assert(now.to_set() =~= comp_set) by {
            assert forall|x: Seq<char>| now.to_set().contains(x) <==> comp_set.contains(x) by {
                if now.to_set().contains(x) {
                    let k = choose|k: int| 0 <= k < now.len() && now[k] == x;
                    assert(comp_set.contains(now[k]));
                }
                if comp_set.contains(x) {
                    assert(closed_under(cv, bases, t as int, now.to_set()) && now.to_set().contains(s0));
                }
            }
        }
    }
    comp
}


// ── regions, neighbourhoods and the topology ─────────────────────────────────

/// Whether one of `sets` holds `x`.
pub open spec fn covered(sets: Seq<Set<Seq<char>>>, x: Seq<char>) -> bool {
    exists|i: int| 0 <= i < sets.len() && #[trigger] sets[i].contains(x)
}

/// The components met walking the first `k` anchors of `cs`: a new one for
/// each anchor that no earlier component holds.
pub open spec fn components(cs: Seq<Seq<char>>, bases: Seq<Seq<Seq<char>>>, t: int, k: nat) -> Seq<Set<Seq<char>>>
    decreases k,
{
    if k == 0 {
        Seq::empty()
    } else {
        let prev = components(cs, bases, t, (k - 1) as nat);
        let s = cs[k - 1];
        if covered(prev, s) {
            prev
        } else {
            prev.push(component(cs, bases, t, s))
        }
    }
}

/// The sum of the distances from each anchor of `ms` to `x`.
pub open spec fn dist_sum_to(ms: Seq<Seq<char>>, x: Seq<char>, bases: Seq<Seq<Seq<char>>>) -> int
    decreases ms.len(),
{
    if ms.len() == 0 {
        0
    } else {
        dist_sum_to(ms.drop_last(), x, bases) + pair_distance(ms.last(), x, bases)
    }
}

/// The sum of the distances over all pairs of `ms`.
pub open spec fn pair_total(ms: Seq<Seq<char>>, bases: Seq<Seq<Seq<char>>>) -> int
    decreases ms.len(),
{
    if ms.len() == 0 {
        0
    } else {
        pair_total(ms.drop_last(), bases) + dist_sum_to(ms.drop_last(), ms.last(), bases)
    }
}

/// 1000 less the mean pair distance of the members (1000 below two members).
pub open spec fn cohesion(ms: Seq<Seq<char>>, bases: Seq<Seq<Seq<char>>>) -> int {
    let n = ms.len() as int;
    if n < 2 {
        1000
    } else {
        1000 - pair_total(ms, bases) / (n * (n - 1) / 2)
    }
}

/// A region's id: the first sixteen hex digits of the content hash of its
/// member list.
pub open spec fn region_id(ms: Seq<Seq<char>>) -> Seq<char> {
    json_hash(json_strs(ms)).subrange(0, 16)
}

/// The region formed by a component. A component is closed under links, so
/// no member has a neighbour outside it: the boundary list is empty.
pub open spec fn region_of(set: Set<Seq<char>>, bases: Seq<Seq<Seq<char>>>) -> RegionView {
    let ms = crate::text::listing(set);
    RegionView {
        id: region_id(ms),
        members: ms,
        representative: ms[0],
        boundary_members: Seq::empty(),
        cohesion_score: cohesion(ms, bases) as i64,
    }
}

pub open spec fn by_id() -> spec_fn(RegionView) -> Seq<char> {
    |r: RegionView| r.id
}

pub open spec fn by_center() -> spec_fn(NeighborhoodView) -> Seq<char> {
    |n: NeighborhoodView| n.center
}

/// The anchors of `cs` (with repeats, in their order) other than `c` within
/// distance `t` of it.
pub open spec fn nearby(cs: Seq<Seq<char>>, bases: Seq<Seq<Seq<char>>>, t: int, c: Seq<char>) -> Seq<Seq<char>>
    decreases cs.len(),
{
    if cs.len() == 0 {
        Seq::empty()
    } else {
        let rest = nearby(cs.drop_last(), bases, t, c);
        let x = cs.last();
        if x != c && pair_distance(c, x, bases) <= t {
            rest.push(x)
        } else {
            rest
        }
    }
}

pub open spec fn neighborhood_of(cs: Seq<Seq<char>>, bases: Seq<Seq<Seq<char>>>, t: int, c: Seq<char>) -> NeighborhoodView {
    NeighborhoodView {
        center: c,
        neighbors: crate::text::keyed_sorted(nearby(cs, bases, t, c), crate::text::text_key()),
        radius: t as i64,
    }
}

/// The total size of the neighbour lists.
pub open spec fn neighbor_total(ns: Seq<NeighborhoodView>) -> int
    decreases ns.len(),
{
    if ns.len() == 0 {
        0
    } else {
        neighbor_total(ns.drop_last()) + ns.last().neighbors.len()
    }
}

pub open spec fn topology_hash(
    ns: Seq<NeighborhoodView>,
    rs: Seq<RegionView>,
    boundary: Seq<Seq<char>>,
    m: TopologyMetrics,
) -> Seq<char> {
    json_hash(
        json_list(
            seq![
                json_list(ns.map_values(|n: NeighborhoodView| neighborhood_json(n))),
                json_list(rs.map_values(|r: RegionView| region_json(r))),
                json_strs(boundary),
                metrics_json(m),
            ],
        ),
    )
}

/// The topology of the anchors of `m` at link distance `threshold` (at
/// least 0): one neighbourhood per anchor (by centre), one region per
/// connected component (by id), no boundary.
pub open spec fn topology_of(m: ConsolidatedMemory, threshold: i64) -> TopologyView {
    let cs = views(m.anchor_basis_ids@);
    let bases = memory_bases(m);
    let t: int = if threshold >= 0 { threshold as int } else { 0 };
    if cs.len() == 0 {
        let metrics = TopologyMetrics {
            region_count: 0,
            total_concepts: 0,
            boundary_count: 0,
            avg_neighborhood_size: 0,
            manifold_stability: 1000,
        };
        TopologyView {
            neighborhoods: Seq::empty(),
            regions: Seq::empty(),
            boundary_concepts: Seq::empty(),
            metrics,
            canonical_hash: json_hash(json_list(seq![json_list(Seq::empty()), metrics_json(metrics)])),
        }
    } else {
        let ns = crate::text::keyed_sorted(
            cs.map_values(|c: Seq<char>| neighborhood_of(cs, bases, t, c)),
            by_center(),
        );
        let rs = crate::text::keyed_sorted(
            components(cs, bases, t, cs.len()).map_values(|set: Set<Seq<char>>| region_of(set, bases)),
            by_id(),
        );
        let metrics = TopologyMetrics {
            region_count: rs.len() as usize,
            total_concepts: cs.len() as usize,
            boundary_count: 0,
            avg_neighborhood_size: (neighbor_total(ns) / ns.len() as int) as i64,
            manifold_stability: 1000,
        };
        TopologyView {
            neighborhoods: ns,
            regions: rs,
            boundary_concepts: Seq::empty(),
            metrics,
            canonical_hash: topology_hash(ns, rs, Seq::empty(), metrics),
        }
    }
}

/// The most anchors a region's cohesion can relate: it sums a distance of at
/// most 1000 over each of the n·(n−1)/2 pairs in an `i64`, which can
/// overflow from about 1.36·10^8 members on; 2^26 stays below that.
pub const MAX_ANCHORS: u64 = 0x400_0000;

proof fn lemma_dist_sum_bounds(ms: Seq<Seq<char>>, x: Seq<char>, bases: Seq<Seq<Seq<char>>>)
    ensures
        0 <= dist_sum_to(ms, x, bases) <= 1000 * ms.len(),
    decreases ms.len(),
{
    if ms.len() > 0 {
        lemma_dist_sum_bounds(ms.drop_last(), x, bases);
    }
}

proof fn lemma_pair_total_bounds(ms: Seq<Seq<char>>, bases: Seq<Seq<Seq<char>>>)
    ensures
        0 <= pair_total(ms, bases) <= 1000 * ms.len() * ms.len(),
    decreases ms.len(),
{
    if ms.len() > 0 {
        let n = ms.len() as int;
        lemma_pair_total_bounds(ms.drop_last(), bases);
        lemma_dist_sum_bounds(ms.drop_last(), ms.last(), bases);
        assert(1000 * (n - 1) * (n - 1) + 1000 * (n - 1) <= 1000 * n * n) by (nonlinear_arith)
            requires
                n >= 1,
        ;
    }
}

fn cohesion_of(ms: &Vec<String>, memory: &ConsolidatedMemory) -> (c: i64)
    requires
        ms@.len() <= MAX_ANCHORS,
    ensures
        c == cohesion(views(ms@), memory_bases(*memory)),
{
    let ghost mv = views(ms@);
    let ghost bases = memory_bases(*memory);
    let n = ms.len();
    if n < 2 {
        return 1000;
    }
    let mut sum: i64 = 0;
    let mut j: usize = 0;
    assert(mv.take(0) =~= Seq::<Seq<char>>::empty());
    while j < n
        invariant
            n == mv.len(),
            mv == views(ms@),
            bases == memory_bases(*memory),
            n <= MAX_ANCHORS,
            j <= n,
            sum == pair_total(mv.take(j as int), bases),
        decreases n - j,
    {
        let mut i: usize = 0;
        proof {
            lemma_pair_total_bounds(mv.take(j as int), bases);
            assert(1000 * j * j <= 1000 * 0x400_0000 * 0x400_0000) by (nonlinear_arith)
                requires
                    j <= 0x400_0000,
            ;
            assert(mv.take(j as int).take(0) =~= Seq::<Seq<char>>::empty());
        }
        while i < j
            invariant
                n == mv.len(),
                mv == views(ms@),
                bases == memory_bases(*memory),
                j < n,
                n <= MAX_ANCHORS,
                i <= j,
                0 <= pair_total(mv.take(j as int), bases) <= 1000 * 0x400_0000 * 0x400_0000,
                sum == pair_total(mv.take(j as int), bases) + dist_sum_to(mv.take(i as int), mv[j as int], bases),
            decreases j - i,
        {
            let d = pairwise_anchor_distance(&ms[i], &ms[j], memory);
            proof {
                lemma_dist_sum_bounds(mv.take(i as int), mv[j as int], bases);
                assert(mv.take(i + 1).drop_last() =~= mv.take(i as int));
                assert(mv.take(i + 1).last() == mv[i as int]);
            }
            sum = sum + d;
            i = i + 1;
        }
        proof {
            let t = mv.take(j + 1);
            assert(t.drop_last() =~= mv.take(j as int));
            assert(t.last() == mv[j as int]);
            assert(mv.take(j as int).take(j as int) =~= mv.take(j as int));
            assert(mv.take(i as int) =~= mv.take(j as int));
        }
        j = j + 1;
    }
    assert(mv.take(n as int) =~= mv);
    proof {
        assert((n as int) * ((n as int) - 1) / 2 >= 1) by (nonlinear_arith)
            requires
                n >= 2,
        ;
        assert((n as int) * ((n as int) - 1) <= 0x400_0000 * 0x400_0000) by (nonlinear_arith)
            requires
                2 <= n <= 0x400_0000,
        ;
        lemma_pair_total_bounds(mv, bases);
    }
    let pairs: i64 = ((n as i64) * ((n as i64) - 1)) / 2;
    1000 - sum / pairs
}

fn region_from(comp: &Vec<String>, memory: &ConsolidatedMemory) -> (r: TopologicalRegion)
    requires
        comp@.len() >= 1,
        comp@.len() <= MAX_ANCHORS,
        views(comp@).no_duplicates(),
    ensures
        r@ == region_of(views(comp@).to_set(), memory_bases(*memory)),
        r@.members.to_set() == views(comp@).to_set(),
{
    let members = distinct_sorted_texts(comp);
    proof {
        crate::text::lemma_listing(views(members@));
        crate::text::lemma_strictly_sorted_no_duplicates(views(members@));
        views(comp@).unique_seq_to_set();
        assert(views(members@).to_set().contains(views(comp@)[0]));
    }
    let cohesion_score = cohesion_of(&members, memory);
    let listed = crate::json::json_strs_text(&members);
    let digest = json_hash_text(&listed);
    let id = digest.as_str().substring_char(0, 16).to_string();
    let representative = members[0].clone();
    let boundary_members: Vec<String> = Vec::new();
    let r = TopologicalRegion { id, members, representative, boundary_members, cohesion_score };
    proof {
        let ms = crate::text::listing(views(comp@).to_set());
        assert(views(r.boundary_members@) =~= Seq::<Seq<char>>::empty());
        assert(r@.members == ms);
        assert(r@.id == region_id(ms));
        assert(r@.representative == ms[0]);
        assert(r@.cohesion_score == cohesion(ms, memory_bases(*memory)));
    }
    r
}


fn neighborhood_for(cs: &Vec<String>, memory: &ConsolidatedMemory, t: i64, ci: usize) -> (r: TopologicalNeighborhood)
    requires
        ci < cs@.len(),
    ensures
        r@ == neighborhood_of(views(cs@), memory_bases(*memory), t as int, views(cs@)[ci as int]),
{
    let ghost cv = views(cs@);
    let ghost bases = memory_bases(*memory);
    let center = cs[ci].clone();
    let mut near: Vec<String> = Vec::new();
    let mut j: usize = 0;
    while j < cs.len()
        invariant
            cv == views(cs@),
            bases == memory_bases(*memory),
            center@ == cv[ci as int],
            j <= cv.len(),
            views(near@) == nearby(cv.take(j as int), bases, t as int, center@),
        decreases cv.len() - j,
    {
        let ghost before = near@;
        let keep = !same_text(&cs[j], &center) && pairwise_anchor_distance(&center, &cs[j], memory) <= t;
        if keep {
            near.push(cs[j].clone());
        }
        proof {
            let tk = cv.take(j + 1);
            assert(tk.drop_last() =~= cv.take(j as int));
            assert(tk.last() == cv[j as int]);
            if keep {
                assert(near@ =~= before.push(cs@[j as int]));
                assert(views(near@) =~= views(before).push(cv[j as int]));
            } else {
                assert(near@ =~= before);
            }
        }
        j = j + 1;
    }
    assert(cv.take(cv.len() as int) =~= cv);
    let neighbors = crate::text::sorted_text_copy(&near);
    TopologicalNeighborhood { center, neighbors, radius: t }
}

fn build_neighborhoods(cs: &Vec<String>, memory: &ConsolidatedMemory, t: i64) -> (r: Vec<TopologicalNeighborhood>)
    ensures
        neighborhood_views(r@) == crate::text::keyed_sorted(
            views(cs@).map_values(|c: Seq<char>| neighborhood_of(views(cs@), memory_bases(*memory), t as int, c)),
            by_center(),
        ),
{
    let ghost cv = views(cs@);
    let ghost all = cv.map_values(|c: Seq<char>| neighborhood_of(cv, memory_bases(*memory), t as int, c));
    let mut out: Vec<TopologicalNeighborhood> = Vec::new();
    let mut i: usize = 0;
    while i < cs.len()
        invariant
            cv == views(cs@),
            all == cv.map_values(|c: Seq<char>| neighborhood_of(cv, memory_bases(*memory), t as int, c)),
            i <= cv.len(),
            neighborhood_views(out@) == crate::text::keyed_sorted(all.take(i as int), by_center()),
        decreases cv.len() - i,
    {
        let nb = neighborhood_for(cs, memory, t, i);
        let mut p: usize = 0;
        while p < out.len() && !less_than(nb.center.as_str(), out[p].center.as_str())
            invariant
                p <= out@.len(),
                forall|k: int| 0 <= k < p ==> !text_lt(nb@.center, #[trigger] neighborhood_views(out@)[k].center),
            decreases out@.len() - p,
        {
            p = p + 1;
        }
        let ghost before = neighborhood_views(out@);
        proof {
            crate::text::lemma_insert_keyed_at(before, nb@, by_center(), p as int);
            let tk = all.take(i + 1);
            assert(tk.drop_last() =~= all.take(i as int));
            assert(tk.last() == nb@);
        }
        out.insert(p, nb);
        proof {
            assert(neighborhood_views(out@) =~= before.subrange(0, p as int) + seq![all[i as int]] + before.subrange(
                p as int,
                before.len() as int,
            ));
        }
        i = i + 1;
    }
    assert(all.take(cv.len() as int) =~= all);
    out
}

/// The member sets of a list of components.
pub open spec fn comp_sets(s: Seq<Vec<String>>) -> Seq<Set<Seq<char>>> {
    s.map_values(|v: Vec<String>| views(v@).to_set())
}

fn is_covered(comps: &Vec<Vec<String>>, x: &String) -> (r: bool)
    ensures
        r == covered(comp_sets(comps@), x@),
{
    let mut k: usize = 0;
    while k < comps.len()
        invariant
            k <= comps@.len(),
            forall|i: int| 0 <= i < k ==> !(#[trigger] comp_sets(comps@)[i]).contains(x@),
        decreases comps@.len() - k,
    {
        if crate::text::has_text(&comps[k], x.as_str()) {
            assert(comp_sets(comps@)[k as int].contains(x@));
            return true;
        }
        proof {
            if comp_sets(comps@)[k as int].contains(x@) {
                let m = choose|m: int| 0 <= m < views(comps@[k as int]@).len() && views(comps@[k as int]@)[m] == x@;
            }
        }
        k = k + 1;
    }
    false
}

fn build_components(cs: &Vec<String>, memory: &ConsolidatedMemory, t: i64) -> (r: Vec<Vec<String>>)
    ensures
        comp_sets(r@) == components(views(cs@), memory_bases(*memory), t as int, cs@.len() as nat),
        forall|k: int| 0 <= k < r@.len() ==> 1 <= (#[trigger] r@[k])@.len() <= cs@.len(),
        forall|k: int| 0 <= k < r@.len() ==> views((#[trigger] r@[k])@).no_duplicates(),
{
    let ghost cv = views(cs@);
    let ghost bases = memory_bases(*memory);
    let mut comps: Vec<Vec<String>> = Vec::new();
    let mut i: usize = 0;
    while i < cs.len()
        invariant
            cv == views(cs@),
            bases == memory_bases(*memory),
            i <= cv.len(),
            comp_sets(comps@) == components(cv, bases, t as int, i as nat),
            forall|k: int| 0 <= k < comps@.len() ==> 1 <= (#[trigger] comps@[k])@.len() <= cs@.len(),
            forall|k: int| 0 <= k < comps@.len() ==> views((#[trigger] comps@[k])@).no_duplicates(),
        decreases cv.len() - i,
    {
        let ghost before = comps@;
        if !is_covered(&comps, &cs[i]) {
            let c = component_of(cs, memory, t, i);
            comps.push(c);
            proof {
                assert(comps@ =~= before.push(comps@[i as int - i as int + before.len()]));
                assert(comp_sets(comps@) =~= comp_sets(before).push(views(comps@.last()@).to_set()));
            }
        }
        i = i + 1;
    }
    comps
}

/// An anchor belongs to the component that starts from it.
proof fn lemma_component_holds_start(cs: Seq<Seq<char>>, bases: Seq<Seq<Seq<char>>>, t: int, start: Seq<char>)
    ensures
        component(cs, bases, t, start).contains(start),
{
}

/// The components met walking the first `k` anchors extend those met walking
/// fewer, and together they hold each of those anchors.
proof fn lemma_components_cover(cs: Seq<Seq<char>>, bases: Seq<Seq<Seq<char>>>, t: int, k: nat)
    requires
        k <= cs.len(),
    ensures
        forall|j: int| 0 <= j < k ==> covered(components(cs, bases, t, k), #[trigger] cs[j]),
    decreases k,
{
    if k > 0 {
        lemma_components_cover(cs, bases, t, (k - 1) as nat);
        let prev = components(cs, bases, t, (k - 1) as nat);
        let now = components(cs, bases, t, k);
        assert forall|j: int| 0 <= j < k implies covered(now, #[trigger] cs[j]) by {
            if j < k - 1 {
                assert(covered(prev, cs[j]));
                let i = choose|i: int| 0 <= i < prev.len() && #[trigger] prev[i].contains(cs[j]);
                assert(now[i] == prev[i]);
            } else if !covered(prev, cs[j]) {
                lemma_component_holds_start(cs, bases, t, cs[j]);
                assert(now[prev.len() as int] == component(cs, bases, t, cs[j]));
            }
        }
    }
}

/// Each anchor lies in a region when every component met has a region with
/// its members.
proof fn lemma_regions_cover_anchors(
    cs: Seq<Seq<char>>,
    bases: Seq<Seq<Seq<char>>>,
    t: int,
    sets: Seq<Set<Seq<char>>>,
    rs: Seq<RegionView>,
)
    requires
        sets == components(cs, bases, t, cs.len() as nat),
        forall|q: int| 0 <= q < sets.len() ==> exists|m: int| 0 <= m < rs.len() && (#[trigger] rs[m]).members.to_set() == #[trigger] sets[q],
    ensures
        forall|k: int| 0 <= k < cs.len() ==> exists|m: int| 0 <= m < rs.len() && (#[trigger] rs[m]).members.contains(#[trigger] cs[k]),
{
    lemma_components_cover(cs, bases, t, cs.len() as nat);
    assert forall|k: int| 0 <= k < cs.len() implies exists|m: int| 0 <= m < rs.len() && (#[trigger] rs[m]).members.contains(#[trigger] cs[k]) by {
        assert(covered(sets, cs[k]));
        let q = choose|q: int| 0 <= q < sets.len() && #[trigger] sets[q].contains(cs[k]);
        let m = choose|m: int| 0 <= m < rs.len() && (#[trigger] rs[m]).members.to_set() == #[trigger] sets[q];
        assert(rs[m].members.to_set().contains(cs[k]));
    }
}

fn build_regions(comps: &Vec<Vec<String>>, memory: &ConsolidatedMemory) -> (r: Vec<TopologicalRegion>)
    requires
        forall|k: int| 0 <= k < comps@.len() ==> 1 <= (#[trigger] comps@[k])@.len() <= MAX_ANCHORS,
        forall|k: int| 0 <= k < comps@.len() ==> views((#[trigger] comps@[k])@).no_duplicates(),
    ensures
        region_views(r@) == crate::text::keyed_sorted(
            comp_sets(comps@).map_values(|set: Set<Seq<char>>| region_of(set, memory_bases(*memory))),
            by_id(),
        ),
        forall|q: int| 0 <= q < comps@.len() ==> exists|m: int| 0 <= m < r@.len() && (#[trigger] region_views(r@)[m]).members.to_set() == #[trigger] comp_sets(comps@)[q],
{
    let ghost all = comp_sets(comps@).map_values(|set: Set<Seq<char>>| region_of(set, memory_bases(*memory)));
    let mut out: Vec<TopologicalRegion> = Vec::new();
    let mut i: usize = 0;
    while i < comps.len()
        invariant
            all == comp_sets(comps@).map_values(|set: Set<Seq<char>>| region_of(set, memory_bases(*memory))),
            i <= comps@.len(),
            forall|k: int| 0 <= k < comps@.len() ==> 1 <= (#[trigger] comps@[k])@.len() <= MAX_ANCHORS,
            forall|k: int| 0 <= k < comps@.len() ==> views((#[trigger] comps@[k])@).no_duplicates(),
            forall|q: int| 0 <= q < i ==> exists|m: int| 0 <= m < out@.len() && (#[trigger] region_views(out@)[m]).members.to_set() == #[trigger] comp_sets(comps@)[q],
            region_views(out@) == crate::text::keyed_sorted(all.take(i as int), by_id()),
        decreases comps@.len() - i,
    {
        let region = region_from(&comps[i], memory);
        let mut p: usize = 0;
        while p < out.len() && !less_than(region.id.as_str(), out[p].id.as_str())
            invariant
                p <= out@.len(),
                forall|k: int| 0 <= k < p ==> !text_lt(region@.id, #[trigger] region_views(out@)[k].id),
            decreases out@.len() - p,
        {
            p = p + 1;
        }
        let ghost before = region_views(out@);
        proof {
            crate::text::lemma_insert_keyed_at(before, region@, by_id(), p as int);
            let tk = all.take(i + 1);
            assert(tk.drop_last() =~= all.take(i as int));
            assert(tk.last() == region@);
        }
        let ghost rset = region@.members.to_set();
        out.insert(p, region);
        proof {
            assert(region_views(out@) =~= before.subrange(0, p as int) + seq![all[i as int]] + before.subrange(
                p as int,
                before.len() as int,
            ));
            let now = region_views(out@);
            assert forall|q: int| 0 <= q < i + 1 implies exists|m: int| 0 <= m < out@.len() && (#[trigger] region_views(out@)[m]).members.to_set() == #[trigger] comp_sets(comps@)[q] by {
                if q == i {
                    assert(now[p as int].members.to_set() == comp_sets(comps@)[q]);
                } else {
                    let m = choose|m: int| 0 <= m < before.len() && (#[trigger] before[m]).members.to_set() == comp_sets(comps@)[q];
                    if m < p {
                        assert(now[m] == before[m]);
                    } else {
                        assert(now[m + 1] == before[m]);
                    }
                }
            }
        }
        i = i + 1;
    }
    assert(all.take(comps@.len() as int) =~= all);
    out
}


proof fn lemma_nearby_len(cs: Seq<Seq<char>>, bases: Seq<Seq<Seq<char>>>, t: int, c: Seq<char>)
    ensures
        nearby(cs, bases, t, c).len() <= cs.len(),
    decreases cs.len(),
{
    if cs.len() > 0 {
        lemma_nearby_len(cs.drop_last(), bases, t, c);
    }
}

fn neighborhoods_json_text(v: &Vec<TopologicalNeighborhood>) -> (r: String)
    ensures
        r@ == json_list(neighborhood_views(v@).map_values(|n: NeighborhoodView| neighborhood_json(n))),
{
    let ghost items = neighborhood_views(v@).map_values(|n: NeighborhoodView| neighborhood_json(n));
    let mut parts: Vec<String> = Vec::new();
    let mut i: usize = 0;
    while i < v.len()
        invariant
            i <= v@.len(),
            items == neighborhood_views(v@).map_values(|n: NeighborhoodView| neighborhood_json(n)),
            views(parts@) == items.take(i as int),
        decreases v@.len() - i,
    {
        let ghost before = parts@;
        let piece = neighborhood_json_text(&v[i]);
        parts.push(piece);
        proof {
            assert(views(parts@) =~= views(before).push(items[i as int]));
        }
        i = i + 1;
        assert(views(parts@) =~= items.take(i as int));
    }
    assert(items.take(v@.len() as int) =~= items);
    let mut out = String::new();
    push_json_list(&mut out, &parts);
    out
}

fn regions_json_text(v: &Vec<TopologicalRegion>) -> (r: String)
    ensures
        r@ == json_list(region_views(v@).map_values(|x: RegionView| region_json(x))),
{
    let ghost items = region_views(v@).map_values(|x: RegionView| region_json(x));
    let mut parts: Vec<String> = Vec::new();
    let mut i: usize = 0;
    while i < v.len()
        invariant
            i <= v@.len(),
            items == region_views(v@).map_values(|x: RegionView| region_json(x)),
            views(parts@) == items.take(i as int),
        decreases v@.len() - i,
    {
        let ghost before = parts@;
        let piece = region_json_text(&v[i]);
        parts.push(piece);
        proof {
            assert(views(parts@) =~= views(before).push(items[i as int]));
        }
        i = i + 1;
        assert(views(parts@) =~= items.take(i as int));
    }
    assert(items.take(v@.len() as int) =~= items);
    let mut out = String::new();
    push_json_list(&mut out, &parts);
    out
}


fn neighbor_count_total(concepts: &Vec<String>, memory: &ConsolidatedMemory, threshold: i64, neighborhoods: &Vec<TopologicalNeighborhood>) -> (total: i64)
    requires
        concepts@.len() <= MAX_ANCHORS,
        neighborhood_views(neighborhoods@) == crate::text::keyed_sorted(
            views(concepts@).map_values(|c: Seq<char>| neighborhood_of(views(concepts@), memory_bases(*memory), threshold as int, c)),
            by_center(),
        ),
    ensures
        total == neighbor_total(neighborhood_views(neighborhoods@)),
        total >= 0,
{
    let ghost cv = views(concepts@);
    let ghost bases = memory_bases(*memory);
    let ghost ns = neighborhood_views(neighborhoods@);
    let ghost all_ns = cv.map_values(|c: Seq<char>| neighborhood_of(cv, bases, threshold as int, c));
    proof {
        crate::text::lemma_keyed_sorted_contents(all_ns, by_center());
    }
    let mut total: i64 = 0;
    let mut k: usize = 0;
    while k < neighborhoods.len()
        invariant
            ns == neighborhood_views(neighborhoods@),
            ns == crate::text::keyed_sorted(all_ns, by_center()),
            all_ns == cv.map_values(|c: Seq<char>| neighborhood_of(cv, bases, threshold as int, c)),
            forall|y: NeighborhoodView| #[trigger] ns.contains(y) ==> all_ns.contains(y),
            ns.len() == cv.len(),
            cv.len() <= MAX_ANCHORS,
            k <= ns.len(),
            0 <= total <= k * cv.len(),
            total == neighbor_total(ns.take(k as int)),
        decreases ns.len() - k,
    {
        proof {
            assert(ns.contains(ns[k as int]));
            let m = choose|m: int| 0 <= m < all_ns.len() && all_ns[m] == ns[k as int];
            lemma_nearby_len(cv, bases, threshold as int, cv[m]);
            crate::text::lemma_keyed_sorted_contents(nearby(cv, bases, threshold as int, cv[m]), crate::text::text_key());
            assert(ns.take(k + 1).drop_last() =~= ns.take(k as int));
            assert(k * cv.len() + cv.len() <= MAX_ANCHORS * MAX_ANCHORS) by (nonlinear_arith)
                requires
                    k < cv.len(),
                    cv.len() <= MAX_ANCHORS,
            ;
            assert((k + 1) * cv.len() == k * cv.len() + cv.len()) by (nonlinear_arith);
        }
        total = total + (neighborhoods[k].neighbors.len() as i64);
        k = k + 1;
    }
    assert(ns.take(ns.len() as int) =~= ns);
    total
}

fn topology_json_text(
    neighborhoods: &Vec<TopologicalNeighborhood>,
    regions: &Vec<TopologicalRegion>,
    boundary: &Vec<String>,
    metrics: &TopologyMetrics,
) -> (r: String)
    ensures
        r@ == json_list(
            seq![
                json_list(neighborhood_views(neighborhoods@).map_values(|n: NeighborhoodView| neighborhood_json(n))),
                json_list(region_views(regions@).map_values(|r: RegionView| region_json(r))),
                json_strs(views(boundary@)),
                metrics_json(*metrics),
            ],
        ),
{
    let mut parts: Vec<String> = Vec::new();
    parts.push(neighborhoods_json_text(neighborhoods));
    parts.push(regions_json_text(regions));
    parts.push(crate::json::json_strs_text(boundary));
    parts.push(metrics_json_text(metrics));
    let mut whole = String::new();
    push_json_list(&mut whole, &parts);
    let ghost ns = neighborhood_views(neighborhoods@);
    let ghost rs = region_views(regions@);
    proof {
        assert(views(parts@) =~= seq![
            json_list(ns.map_values(|n: NeighborhoodView| neighborhood_json(n))),
            json_list(rs.map_values(|x: RegionView| region_json(x))),
            json_strs(views(boundary@)),
            metrics_json(*metrics),
        ]);
    }
    whole
}

/// The topology of the anchors of a consolidated memory. Two anchors are
/// linked when their distance (see `pair_distance`) is at most
/// `distance_threshold` (taken as 0 when negative). Each anchor gets a
/// neighbourhood listing its linked anchors in order; neighbourhoods are
/// ordered by centre. Each connected component of linked anchors forms a
/// region, identified by the content hash of its member list, scored by
/// 1000 less its mean pair distance; regions are ordered by id. Because a
/// region is a whole component, no region has boundary members, so the
/// boundary count is 0 and the stability 1000. The canonical hash covers
/// neighbourhoods, regions, boundary and metrics.
pub fn compute_cognitive_topology(memory: &ConsolidatedMemory, distance_threshold: i64) -> (r: Result<CognitiveTopology, InvariantViolation>)
    requires
        memory.anchor_basis_ids@.len() <= MAX_ANCHORS,
    ensures
        r is Ok,
        r matches Ok(t) && t@ == topology_of(*memory, distance_threshold),
        r matches Ok(t) && forall|k: int| 0 <= k < views(memory.anchor_basis_ids@).len() ==> exists|m: int|
            0 <= m < t@.regions.len() && (#[trigger] t@.regions[m]).members.contains(
                #[trigger] views(memory.anchor_basis_ids@)[k],
            ),
{
    let concepts = &memory.anchor_basis_ids;
    let ghost cv = views(concepts@);
    let ghost bases = memory_bases(*memory);
    let threshold: i64 = if distance_threshold >= 0 {
        distance_threshold
    } else {
        0
    };
    if concepts.len() == 0 {
        let metrics = TopologyMetrics {
            region_count: 0,
            total_concepts: 0,
            boundary_count: 0,
            avg_neighborhood_size: 0,
            manifold_stability: 1000,
        };
        let mut parts: Vec<String> = Vec::new();
        let none: Vec<String> = Vec::new();
        let mut empty_list = String::new();
        push_json_list(&mut empty_list, &none);
        parts.push(empty_list);
        parts.push(metrics_json_text(&metrics));
        let mut whole = String::new();
        push_json_list(&mut whole, &parts);
        proof {
            assert(views(none@) =~= Seq::<Seq<char>>::empty());
            assert(views(parts@) =~= seq![json_list(Seq::empty()), metrics_json(metrics)]);
        }
        let canonical_hash = json_hash_text(&whole);
        let t = CognitiveTopology {
            neighborhoods: Vec::new(),
            regions: Vec::new(),
            boundary_concepts: Vec::new(),
            metrics,
            canonical_hash,
        };
        proof {
            assert(neighborhood_views(t.neighborhoods@) =~= Seq::<NeighborhoodView>::empty());
            assert(region_views(t.regions@) =~= Seq::<RegionView>::empty());
            assert(views(t.boundary_concepts@) =~= Seq::<Seq<char>>::empty());
        }
        return Ok(t);
    }
    let neighborhoods = build_neighborhoods(concepts, memory, threshold);
    let comps = build_components(concepts, memory, threshold);
    let regions = build_regions(&comps, memory);
    proof {
        crate::text::lemma_keyed_sorted_contents(
            cv.map_values(|c: Seq<char>| neighborhood_of(cv, bases, threshold as int, c)),
            by_center(),
        );
    }
    let total = neighbor_count_total(concepts, memory, threshold, &neighborhoods);
    let avg_neighborhood_size = total / (neighborhoods.len() as i64);
    let metrics = TopologyMetrics {
        region_count: regions.len(),
        total_concepts: concepts.len(),
        boundary_count: 0,
        avg_neighborhood_size,
        manifold_stability: 1000,
    };
    let boundary_concepts: Vec<String> = Vec::new();
    assert(views(boundary_concepts@) =~= Seq::<Seq<char>>::empty());
    let whole = topology_json_text(&neighborhoods, &regions, &boundary_concepts, &metrics);
    let canonical_hash = json_hash_text(&whole);
    let t = CognitiveTopology { neighborhoods, regions, boundary_concepts, metrics, canonical_hash };
    proof {
        lemma_regions_cover_anchors(
            views(memory.anchor_basis_ids@),
            memory_bases(*memory),
            threshold as int,
            comp_sets(comps@),
            t@.regions,
        );
    }
    let ghost regions_of_t = t@.regions;
    let res: Result<CognitiveTopology, InvariantViolation> = Ok(t);
    proof {
        assert(res->Ok_0@.regions == regions_of_t);
        assert(forall|k: int| 0 <= k < views(memory.anchor_basis_ids@).len() ==> exists|m: int|
            0 <= m < res->Ok_0@.regions.len() && (#[trigger] res->Ok_0@.regions[m]).members.contains(
                #[trigger] views(memory.anchor_basis_ids@)[k],
            ));
    }
    res
}


// ── evolution over snapshots ─────────────────────────────────────────────────

/// How often `x` occurs in `ids`.
pub open spec fn id_count(ids: Seq<Seq<char>>, x: Seq<char>) -> int
    decreases ids.len(),
{
    if ids.len() == 0 {
        0
    } else {
        id_count(ids.drop_last(), x) + (if ids.last() == x { 1int } else { 0int })
    }
}

/// How many regions with id `x` the snapshots hold in all.
pub open spec fn appearances(snaps: Seq<TopologyView>, x: Seq<char>) -> int
    decreases snaps.len(),
{
    if snaps.len() == 0 {
        0
    } else {
        appearances(snaps.drop_last(), x) + id_count(region_ids(snaps.last()), x)
    }
}

/// Region ids present in every snapshot (exactly once per snapshot in all).
pub open spec fn persistent_ids(snaps: Seq<TopologyView>) -> Set<Seq<char>> {
    Set::new(|x: Seq<char>| appearances(snaps, x) > 0 && appearances(snaps, x) == snaps.len())
}

/// Region ids seen, but fewer times than there are snapshots.
pub open spec fn transient_ids(snaps: Seq<TopologyView>) -> Set<Seq<char>> {
    Set::new(|x: Seq<char>| 0 < appearances(snaps, x) && appearances(snaps, x) < snaps.len())
}

/// Whether a drift counts as a phase transition at `threshold`.
pub open spec fn is_transition(d: DriftView, threshold: i64) -> bool {
    d.drift_score >= (if threshold >= 1 { threshold } else { 1 }) || d.added_regions.len() > 0
        || d.removed_regions.len() > 0
}

/// The step into snapshot `i` (1 ≤ i < snaps.len()).
pub open spec fn step_of(snaps: Seq<TopologyView>, i: int, threshold: i64) -> StepView {
    let d = drift_of(snaps[i - 1], snaps[i]);
    StepView {
        step_index: i as usize,
        drift: d,
        is_phase_transition: is_transition(d, threshold),
        topology_hash: snaps[i].canonical_hash,
    }
}

/// The steps into snapshots 1..k.
pub open spec fn steps_upto(snaps: Seq<TopologyView>, k: int, threshold: i64) -> Seq<StepView>
    decreases k,
{
    if k <= 1 {
        Seq::empty()
    } else {
        steps_upto(snaps, k - 1, threshold).push(step_of(snaps, k - 1, threshold))
    }
}

/// The indices of the steps that are phase transitions, in order.
pub open spec fn transition_steps(steps: Seq<StepView>) -> Seq<usize>
    decreases steps.len(),
{
    if steps.len() == 0 {
        Seq::empty()
    } else {
        let rest = transition_steps(steps.drop_last());
        if steps.last().is_phase_transition {
            rest.push(steps.last().step_index)
        } else {
            rest
        }
    }
}

/// The sum of the drift scores of the steps.
pub open spec fn drift_total(steps: Seq<StepView>) -> int
    decreases steps.len(),
{
    if steps.len() == 0 {
        0
    } else {
        drift_total(steps.drop_last()) + steps.last().drift.drift_score
    }
}

/// How a series of topologies evolved at phase threshold `threshold`.
pub open spec fn evolution_of(snaps: Seq<TopologyView>, threshold: i64) -> TraceView {
    if snaps.len() == 0 {
        TraceView {
            steps: Seq::empty(),
            persistent_region_ids: Seq::empty(),
            transient_region_ids: Seq::empty(),
            phase_transition_steps: Seq::empty(),
            overall_stability: 1000,
            canonical_hash: json_hash(json_list(Seq::empty())),
        }
    } else {
        let steps = steps_upto(snaps, snaps.len() as int, threshold);
        let persistent = crate::text::listing(persistent_ids(snaps));
        let phases = transition_steps(steps);
        let overall = if steps.len() == 0 {
            1000int
        } else {
            let v = 1000 - drift_total(steps) / steps.len() as int;
            if v > 0 { v } else { 0 }
        };
        TraceView {
            steps,
            persistent_region_ids: persistent,
            transient_region_ids: crate::text::listing(transient_ids(snaps)),
            phase_transition_steps: phases,
            overall_stability: overall as i64,
            canonical_hash: json_hash(
                json_list(
                    seq![
                        json_list(steps.map_values(|s: StepView| step_json(s))),
                        json_strs(persistent),
                        json_nats(phases),
                    ],
                ),
            ),
        }
    }
}

/// Tracing the snapshots overflows nowhere: each consecutive pair compares
/// without overflow and the drift scores sum to an `i64`.
pub open spec fn evolution_fits(snaps: Seq<TopologyView>, threshold: i64) -> bool {
    &&& snaps.len() <= MAX_TEXTS
    &&& forall|i: int| 1 <= i < snaps.len() ==> drift_fits(#[trigger] snaps[i - 1], snaps[i])
    &&& drift_total(steps_upto(snaps, snaps.len() as int, threshold)) <= i64::MAX
}

/// All region ids of the snapshots, snapshot by snapshot.
pub open spec fn all_region_ids(snaps: Seq<TopologyView>) -> Seq<Seq<char>>
    decreases snaps.len(),
{
    if snaps.len() == 0 {
        Seq::empty()
    } else {
        all_region_ids(snaps.drop_last()) + region_ids(snaps.last())
    }
}

proof fn lemma_id_count_concat(a: Seq<Seq<char>>, b: Seq<Seq<char>>, x: Seq<char>)
    ensures
        id_count(a + b, x) == id_count(a, x) + id_count(b, x),
    decreases b.len(),
{
    if b.len() == 0 {
        assert(a + b =~= a);
    } else {
        lemma_id_count_concat(a, b.drop_last(), x);
        assert((a + b).drop_last() =~= a + b.drop_last());
    }
}

pub(crate) proof fn lemma_id_count_contains(ids: Seq<Seq<char>>, x: Seq<char>)
    ensures
        id_count(ids, x) >= 0,
        id_count(ids, x) > 0 <==> ids.contains(x),
    decreases ids.len(),
{
    if ids.len() > 0 {
        lemma_id_count_contains(ids.drop_last(), x);
        if ids.drop_last().contains(x) {
            let k = choose|k: int| 0 <= k < ids.drop_last().len() && ids.drop_last()[k] == x;
            assert(ids[k] == x);
        }
        if ids.contains(x) && ids.last() != x {
            let k = choose|k: int| 0 <= k < ids.len() && ids[k] == x;
            assert(ids.drop_last()[k] == x);
        }
    }
}

pub(crate) proof fn lemma_appearances_all(snaps: Seq<TopologyView>, x: Seq<char>)
    ensures
        appearances(snaps, x) == id_count(all_region_ids(snaps), x),
    decreases snaps.len(),
{
    if snaps.len() > 0 {
        lemma_appearances_all(snaps.drop_last(), x);
        lemma_id_count_concat(all_region_ids(snaps.drop_last()), region_ids(snaps.last()), x);
    }
}

fn all_region_id_list(snaps: &Vec<CognitiveTopology>) -> (r: Vec<String>)
    ensures
        views(r@) == all_region_ids(topology_views(snaps@)),
{
    let ghost sv = topology_views(snaps@);
    let mut out: Vec<String> = Vec::new();
    let mut i: usize = 0;
    while i < snaps.len()
        invariant
            sv == topology_views(snaps@),
            i <= sv.len(),
            views(out@) == all_region_ids(sv.take(i as int)),
        decreases sv.len() - i,
    {
        let ids = region_id_list(&snaps[i]);
        let mut j: usize = 0;
        let ghost start = views(out@);
        while j < ids.len()
            invariant
                j <= ids@.len(),
                views(out@) == start + views(ids@).take(j as int),
            decreases ids@.len() - j,
        {
            let ghost before = out@;
            out.push(ids[j].clone());
            proof {
                assert(views(out@) =~= views(before).push(views(ids@)[j as int]));
                assert(views(ids@).take(j + 1) =~= views(ids@).take(j as int).push(views(ids@)[j as int]));
            }
            j = j + 1;
        }
        proof {
            assert(views(ids@).take(ids@.len() as int) =~= views(ids@));
            let tk = sv.take(i + 1);
            assert(tk.drop_last() =~= sv.take(i as int));
            assert(tk.last() == snaps@[i as int]@);
        }
        i = i + 1;
    }
    assert(sv.take(sv.len() as int) =~= sv);
    out
}

/// `min(appearances, cap)`, counted without overflow.
fn capped_appearances(snaps: &Vec<CognitiveTopology>, x: &String, cap: u64) -> (c: u64)
    ensures
        c == (if appearances(topology_views(snaps@), x@) < cap {
            appearances(topology_views(snaps@), x@)
        } else {
            cap as int
        }),
{
    let ghost sv = topology_views(snaps@);
    let mut c: u64 = 0;
    let mut i: usize = 0;
    while i < snaps.len()
        invariant
            sv == topology_views(snaps@),
            i <= sv.len(),
            c == (if appearances(sv.take(i as int), x@) < cap {
                appearances(sv.take(i as int), x@)
            } else {
                cap as int
            }),
            appearances(sv.take(i as int), x@) >= 0,
        decreases sv.len() - i,
    {
        let ghost ids = region_ids(sv[i as int]);
        let ghost base = appearances(sv.take(i as int), x@);
        let mut j: usize = 0;
        while j < snaps[i].regions.len()
            invariant
                sv == topology_views(snaps@),
                i < sv.len(),
                ids == region_ids(sv[i as int]),
                j <= ids.len(),
                base >= 0,
                base + id_count(ids.take(j as int), x@) >= 0,
                c == (if base + id_count(ids.take(j as int), x@) < cap {
                    base + id_count(ids.take(j as int), x@)
                } else {
                    cap as int
                }),
            decreases ids.len() - j,
        {
            proof {
                assert(ids.take(j + 1).drop_last() =~= ids.take(j as int));
                assert(ids[j as int] == snaps@[i as int].regions@[j as int].id@);
            }
            if same_text(&snaps[i].regions[j].id, x) && c < cap {
                c = c + 1;
            }
            j = j + 1;
        }
        proof {
            assert(ids.take(ids.len() as int) =~= ids);
            let tk = sv.take(i + 1);
            assert(tk.drop_last() =~= sv.take(i as int));
            assert(tk.last() == sv[i as int]);
            lemma_id_count_contains(ids, x@);
        }
        i = i + 1;
    }
    assert(sv.take(sv.len() as int) =~= sv);
    c
}

fn steps_json_text(v: &Vec<TopologyEvolutionStep>) -> (r: String)
    ensures
        r@ == json_list(step_views(v@).map_values(|s: StepView| step_json(s))),
{
    let ghost items = step_views(v@).map_values(|s: StepView| step_json(s));
    let mut parts: Vec<String> = Vec::new();
    let mut i: usize = 0;
    while i < v.len()
        invariant
            i <= v@.len(),
            items == step_views(v@).map_values(|s: StepView| step_json(s)),
            views(parts@) == items.take(i as int),
        decreases v@.len() - i,
    {
        let ghost before = parts@;
        let piece = step_json_text(&v[i]);
        parts.push(piece);
        proof {
            assert(views(parts@) =~= views(before).push(items[i as int]));
        }
        i = i + 1;
        assert(views(parts@) =~= items.take(i as int));
    }
    assert(items.take(v@.len() as int) =~= items);
    let mut out = String::new();
    push_json_list(&mut out, &parts);
    out
}

pub(crate) proof fn lemma_steps_len(snaps: Seq<TopologyView>, k: int, threshold: i64)
    requires
        k >= 1,
    ensures
        steps_upto(snaps, k, threshold).len() == k - 1,
        forall|m: int| 0 <= m < k - 1 ==> #[trigger] steps_upto(snaps, k, threshold)[m] == step_of(snaps, m + 1, threshold),
    decreases k,
{
    if k > 1 {
        lemma_steps_len(snaps, k - 1, threshold);
    }
}

pub(crate) proof fn lemma_drift_total_prefix(steps: Seq<StepView>, k: int)
    requires
        0 <= k <= steps.len(),
        forall|m: int| 0 <= m < steps.len() ==> (#[trigger] steps[m]).drift.drift_score >= 0,
    ensures
        0 <= drift_total(steps.take(k)) <= drift_total(steps),
    decreases steps.len(),
{
    if steps.len() == 0 {
        assert(steps.take(k) =~= steps);
    } else {
        let d = steps.drop_last();
        assert forall|m: int| 0 <= m < d.len() implies (#[trigger] d[m]).drift.drift_score >= 0 by {
            assert(d[m] == steps[m]);
        }
        if k == steps.len() {
            lemma_drift_total_prefix(d, d.len() as int);
            assert(d.take(d.len() as int) =~= d);
            assert(steps.take(k) =~= steps);
            assert(steps.last() == steps[steps.len() - 1]);
        } else {
            lemma_drift_total_prefix(d, k);
            assert(d.take(k) =~= steps.take(k));
            assert(steps.last() == steps[steps.len() - 1]);
        }
    }
}

/// How a series of topology snapshots evolved: the drift into each snapshot
/// after the first (and whether it is a phase transition at
/// `phase_threshold`), the region ids present in every snapshot and those
/// present in some but not all (each in increasing order), the indices of
/// the transition steps, an overall stability of 1000 less the mean drift
/// (never below 0), and a canonical hash of steps, persistent ids and
/// transitions.
pub fn track_manifold_evolution(snapshots: &Vec<CognitiveTopology>, phase_threshold: i64) -> (r: Result<ManifoldEvolutionTrace, InvariantViolation>)
    requires
        evolution_fits(topology_views(snapshots@), phase_threshold),
    ensures
        r is Ok,
        r matches Ok(t) && t@ == evolution_of(topology_views(snapshots@), phase_threshold),
        r matches Ok(t) && 0 <= t.overall_stability <= 1000,
        r matches Ok(t) && forall|i: int, j: int|
            0 <= i < t@.persistent_region_ids.len() && 0 <= j < t@.transient_region_ids.len() ==> #[trigger] t@.persistent_region_ids[i]
                != #[trigger] t@.transient_region_ids[j],
{
    let ghost sv = topology_views(snapshots@);
    if snapshots.len() == 0 {
        let steps: Vec<TopologyEvolutionStep> = Vec::new();
        let parts: Vec<String> = Vec::new();
        let mut whole = String::new();
        push_json_list(&mut whole, &parts);
        assert(views(parts@) =~= Seq::<Seq<char>>::empty());
        let canonical_hash = json_hash_text(&whole);
        let t = ManifoldEvolutionTrace {
            steps,
            persistent_region_ids: Vec::new(),
            transient_region_ids: Vec::new(),
            phase_transition_steps: Vec::new(),
            overall_stability: 1000,
            canonical_hash,
        };
        proof {
            assert(step_views(t.steps@) =~= Seq::<StepView>::empty());
            assert(views(t.persistent_region_ids@) =~= Seq::<Seq<char>>::empty());
            assert(views(t.transient_region_ids@) =~= Seq::<Seq<char>>::empty());
            assert(t.phase_transition_steps@ =~= Seq::<usize>::empty());
        }
        return Ok(t);
    }
    let n = snapshots.len();
    let ghost all_steps = steps_upto(sv, n as int, phase_threshold);
    proof {
        lemma_steps_len(sv, n as int, phase_threshold);
    }
    let mut steps: Vec<TopologyEvolutionStep> = Vec::new();
    let mut phase_transition_steps: Vec<usize> = Vec::new();
    let mut total_drift: i64 = 0;
    let mut i: usize = 1;
    while i < n
        invariant
            sv == topology_views(snapshots@),
            n == sv.len(),
            evolution_fits(sv, phase_threshold),
            all_steps == steps_upto(sv, n as int, phase_threshold),
            all_steps.len() == n - 1,
            forall|m: int| 0 <= m < n - 1 ==> #[trigger] all_steps[m] == step_of(sv, m + 1, phase_threshold),
            1 <= i <= n,
            step_views(steps@) == all_steps.take(i - 1),
            phase_transition_steps@ == transition_steps(all_steps.take(i - 1)),
            total_drift == drift_total(all_steps.take(i - 1)),
        decreases n - i,
    {
        proof {
            assert(drift_fits(sv[i - 1], sv[i as int]));
        }
        let drift = compare_topologies(&snapshots[i - 1], &snapshots[i]);
        let is_phase_transition = detect_phase_transition(&drift, phase_threshold);
        let score = drift.drift_score;
        if is_phase_transition {
            phase_transition_steps.push(i);
        }
        let ghost before = step_views(steps@);
        let step = TopologyEvolutionStep {
            step_index: i,
            drift,
            is_phase_transition,
            topology_hash: snapshots[i].canonical_hash.clone(),
        };
        proof {
            assert(step@ == step_of(sv, i as int, phase_threshold));
            assert(all_steps[i - 1] == step@);
            let tk = all_steps.take(i as int);
            assert(tk.drop_last() =~= all_steps.take(i - 1));
            assert(tk.last() == step@);
            assert forall|m: int| 0 <= m < all_steps.len() implies (#[trigger] all_steps[m]).drift.drift_score >= 0 by {
                assert(all_steps[m] == step_of(sv, m + 1, phase_threshold));
            }
            lemma_drift_total_prefix(all_steps, i as int);
        }
        steps.push(step);
        total_drift = total_drift + score;
        proof {
            assert(step_views(steps@) =~= before.push(all_steps[i - 1]));
        }
        i = i + 1;
    }
    assert(all_steps.take(n - 1) =~= all_steps);
    proof {
        assert forall|m: int| 0 <= m < all_steps.len() implies (#[trigger] all_steps[m]).drift.drift_score >= 0 by {
            assert(all_steps[m] == step_of(sv, m + 1, phase_threshold));
        }
        lemma_drift_total_prefix(all_steps, all_steps.len() as int);
        assert(all_steps.take(all_steps.len() as int) =~= all_steps);
    }
    let ids = all_region_id_list(snapshots);
    let unique = distinct_sorted_texts(&ids);
    let mut persistent_region_ids: Vec<String> = Vec::new();
    let mut transient_region_ids: Vec<String> = Vec::new();
    let ghost uv = views(unique@);
    let mut k: usize = 0;
    while k < unique.len()
        invariant
            sv == topology_views(snapshots@),
            n == sv.len(),
            n >= 1,
            n <= MAX_TEXTS,
            uv == views(unique@),
            crate::text::strictly_sorted_texts(uv),
            uv.to_set() == all_region_ids(sv).to_set(),
            k <= uv.len(),
            crate::text::strictly_sorted_texts(views(persistent_region_ids@)),
            crate::text::strictly_sorted_texts(views(transient_region_ids@)),
            forall|m: int, j: int|
                0 <= m < persistent_region_ids@.len() && k <= j < uv.len() ==> text_lt(
                    #[trigger] views(persistent_region_ids@)[m],
                    #[trigger] uv[j],
                ),
            forall|m: int, j: int|
                0 <= m < transient_region_ids@.len() && k <= j < uv.len() ==> text_lt(
                    #[trigger] views(transient_region_ids@)[m],
                    #[trigger] uv[j],
                ),
            views(persistent_region_ids@).to_set() == uv.take(k as int).to_set().filter(
                |x: Seq<char>| appearances(sv, x) == n,
            ),
            views(transient_region_ids@).to_set() == uv.take(k as int).to_set().filter(
                |x: Seq<char>| appearances(sv, x) < n,
            ),
        decreases uv.len() - k,
    {
        let c = capped_appearances(snapshots, &unique[k], (n as u64) + 1);
        let ghost x = uv[k as int];
        let ghost pb = views(persistent_region_ids@);
        let ghost tb = views(transient_region_ids@);
        if c == n as u64 {
            persistent_region_ids.push(unique[k].clone());
        } else if c < n as u64 {
            transient_region_ids.push(unique[k].clone());
        }
        proof {
            let pn = views(persistent_region_ids@);
            let tn = views(transient_region_ids@);
            if c == n as u64 {
                assert(pn =~= pb.push(x));
                assert(tn =~= tb);
            } else if c < n as u64 {
                assert(pn =~= pb);
                assert(tn =~= tb.push(x));
            } else {
                assert(pn =~= pb);
                assert(tn =~= tb);
            }
            assert(uv.take(k + 1) =~= uv.take(k as int).push(x));
            uv.take(k as int).lemma_push_to_set_commute(x);
            assert forall|m: int, j: int|
                0 <= m < pn.len() && k + 1 <= j < uv.len() implies text_lt(#[trigger] pn[m], #[trigger] uv[j]) by {
                if c == n as u64 && m == pn.len() - 1 {
                    assert(text_lt(uv[k as int], uv[j]));
                } else {
                    assert(pn[m] == pb[m]);
                }
            }
            assert forall|m: int, j: int|
                0 <= m < tn.len() && k + 1 <= j < uv.len() implies text_lt(#[trigger] tn[m], #[trigger] uv[j]) by {
                if c < n as u64 && m == tn.len() - 1 {
                    assert(text_lt(uv[k as int], uv[j]));
                } else {
                    assert(tn[m] == tb[m]);
                }
            }
            assert forall|a: int, b: int| 0 <= a < b < pn.len() implies text_lt(#[trigger] pn[a], #[trigger] pn[b]) by {
                assert(pn[a] == pb[a]);
                if !(c == n as u64 && b == pn.len() - 1) {
                    assert(pn[b] == pb[b]);
                }
            }
            assert forall|a: int, b: int| 0 <= a < b < tn.len() implies text_lt(#[trigger] tn[a], #[trigger] tn[b]) by {
                assert(tn[a] == tb[a]);
                if !(c < n as u64 && b == tn.len() - 1) {
                    assert(tn[b] == tb[b]);
                }
            }
            if c == n as u64 {
                pb.lemma_push_to_set_commute(x);
            }
            if c < n as u64 {
                tb.lemma_push_to_set_commute(x);
            }
            assert(pn.to_set() =~= uv.take(k + 1).to_set().filter(|y: Seq<char>| appearances(sv, y) == n));
            assert(tn.to_set() =~= uv.take(k + 1).to_set().filter(|y: Seq<char>| appearances(sv, y) < n));
        }
        k = k + 1;
    }
    proof {
        assert(uv.take(uv.len() as int) =~= uv);
        assert forall|x: Seq<char>| #[trigger] uv.to_set().contains(x) <==> appearances(sv, x) > 0 by {
            lemma_appearances_all(sv, x);
            lemma_id_count_contains(all_region_ids(sv), x);
        }
        assert(views(persistent_region_ids@).to_set() =~= persistent_ids(sv));
        assert(views(transient_region_ids@).to_set() =~= transient_ids(sv));
        crate::text::lemma_listing(views(persistent_region_ids@));
        crate::text::lemma_listing(views(transient_region_ids@));
        let pv = views(persistent_region_ids@);
        let tv = views(transient_region_ids@);
        assert forall|a: int, b: int| 0 <= a < pv.len() && 0 <= b < tv.len() implies #[trigger] pv[a] != #[trigger] tv[b] by {
            assert(pv.to_set().contains(pv[a]));
            assert(tv.to_set().contains(tv[b]));
        }
    }
    let overall_stability: i64 = if steps.len() == 0 {
        1000
    } else {
        let v = 1000 - total_drift / (steps.len() as i64);
        if v > 0 {
            v
        } else {
            0
        }
    };
    let mut parts: Vec<String> = Vec::new();
    parts.push(steps_json_text(&steps));
    parts.push(crate::json::json_strs_text(&persistent_region_ids));
    let mut phases = String::new();
    push_json_nats(&mut phases, &phase_transition_steps);
    parts.push(phases);
    let mut whole = String::new();
    push_json_list(&mut whole, &parts);
    proof {
        assert(views(parts@) =~= seq![
            json_list(all_steps.map_values(|s: StepView| step_json(s))),
            json_strs(views(persistent_region_ids@)),
            json_nats(phase_transition_steps@),
        ]);
    }
    let canonical_hash = json_hash_text(&whole);
    Ok(
        ManifoldEvolutionTrace {
            steps,
            persistent_region_ids,
            transient_region_ids,
            phase_transition_steps,
            overall_stability,
            canonical_hash,
        },
    )
}


// ── laws ─────────────────────────────────────────────────────────────────────

/// The increasing listing of the empty set is empty.
pub proof fn lemma_listing_empty()
    ensures
        crate::text::listing(Set::<Seq<char>>::empty()) == Seq::<Seq<char>>::empty(),
{
    let e = Seq::<Seq<char>>::empty();
    assert(e.to_set() =~= Set::<Seq<char>>::empty());
    crate::text::lemma_listing(e);
}

/// A topology does not drift from itself: no region appears or disappears,
/// its hash is unchanged and the drift score is 0.
pub proof fn lemma_no_self_drift(t: TopologyView)
    ensures
        drift_of(t, t).drift_score == 0,
        drift_of(t, t).added_regions.len() == 0,
        drift_of(t, t).removed_regions.len() == 0,
        !drift_of(t, t).hash_changed,
{
    assert(added_ids(t, t) =~= Set::<Seq<char>>::empty());
    lemma_listing_empty();
}

/// Comparing the other way round swaps the regions that appeared and
/// disappeared and gives the same drift score.
pub proof fn lemma_drift_reverses(a: TopologyView, b: TopologyView)
    ensures
        drift_of(b, a).added_regions == drift_of(a, b).removed_regions,
        drift_of(b, a).removed_regions == drift_of(a, b).added_regions,
        drift_of(b, a).hash_changed == drift_of(a, b).hash_changed,
        drift_score(b, a) == drift_score(a, b),
{
    assert(abs_int(count_delta(a.metrics.region_count, b.metrics.region_count)) == abs_int(
        count_delta(b.metrics.region_count, a.metrics.region_count),
    ));
    assert(abs_int(count_delta(a.metrics.boundary_count, b.metrics.boundary_count)) == abs_int(
        count_delta(b.metrics.boundary_count, a.metrics.boundary_count),
    ));
    assert(abs_int(a.metrics.manifold_stability - b.metrics.manifold_stability) == abs_int(
        b.metrics.manifold_stability - a.metrics.manifold_stability,
    ));
    assert(abs_int(cohesion_mean(a.regions) - cohesion_mean(b.regions)) == abs_int(
        cohesion_mean(b.regions) - cohesion_mean(a.regions),
    ));
}

} // verus!
