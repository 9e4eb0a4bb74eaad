//! Cognitive flow: how regions and concepts move across a series of
//! topology snapshots, the potential that persistence assigns to each
//! region, and the moves that descend it.
use vstd::prelude::*;
use crate::cognition::constraint::opt_view;
use crate::cognition::multiframe_topology::{
    compare_topologies, drift_fits, drift_of, region_views, CognitiveTopology, RegionView,
    TopologicalRegion, TopologyView, topology_views, MAX_TEXTS, abs_int,
};
use crate::geom::invariants::InvariantViolation;
use crate::json::{json_hash, json_hash_text, json_list, json_str, json_strs, push_json_list, push_json_str,
    push_json_strs};
use crate::text::{dec_int, distinct_sorted_texts, listing, less_than, push_i64, same_text, strictly_sorted_texts,
    text_lt, views};

verus! {

// ── types ────────────────────────────────────────────────────────────────────

/// How one concept moved between the last two snapshots.
#[derive(Debug, Clone, PartialEq, Eq)]
pub struct ConceptFlowVector {
    pub concept: String,
    /// Positive: its region grew; negative: it fragmented.
    pub region_flux: i64,
    /// How many anchors share its region.
    pub anchor_pull: i64,
    /// Positive: toward stability; negative: toward instability.
    pub net_direction: i64,
}

/// How one region moved across the snapshots.
#[derive(Debug, Clone, PartialEq, Eq)]
pub struct RegionFlowVector {
    pub region_id: String,
    pub cohesion_trend: i64,
    pub size_trend: i64,
    pub persistence_score: i64,
    pub is_attractor: bool,
}

/// What the flow predicts.
#[derive(Debug, Clone, PartialEq, Eq)]
pub struct FlowPrediction {
    pub predicted_stable_region_ids: Vec<String>,
    pub predicted_transient_region_ids: Vec<String>,
    pub convergent: bool,
    pub momentum: i64,
}

/// The flow of a series of topologies.
#[derive(Debug, Clone, PartialEq, Eq)]
pub struct CognitiveFlowField {
    pub concept_vectors: Vec<ConceptFlowVector>,
    pub region_vectors: Vec<RegionFlowVector>,
    pub prediction: FlowPrediction,
    pub canonical_hash: String,
}

pub struct ConceptFlowView {
    pub concept: Seq<char>,
    pub region_flux: i64,
    pub anchor_pull: i64,
    pub net_direction: i64,
}

pub struct RegionFlowView {
    pub region_id: Seq<char>,
    pub cohesion_trend: i64,
    pub size_trend: i64,
    pub persistence_score: i64,
    pub is_attractor: bool,
}

pub struct PredictionView {
    pub predicted_stable_region_ids: Seq<Seq<char>>,
    pub predicted_transient_region_ids: Seq<Seq<char>>,
    pub convergent: bool,
    pub momentum: i64,
}

pub struct FlowFieldView {
    pub concept_vectors: Seq<ConceptFlowView>,
    pub region_vectors: Seq<RegionFlowView>,
    pub prediction: PredictionView,
    pub canonical_hash: Seq<char>,
}

impl View for ConceptFlowVector {
    type V = ConceptFlowView;

    open spec fn view(&self) -> ConceptFlowView {
        ConceptFlowView {
            concept: self.concept@,
            region_flux: self.region_flux,
            anchor_pull: self.anchor_pull,
            net_direction: self.net_direction,
        }
    }
}

impl View for RegionFlowVector {
    type V = RegionFlowView;

    open spec fn view(&self) -> RegionFlowView {
        RegionFlowView {
            region_id: self.region_id@,
            cohesion_trend: self.cohesion_trend,
            size_trend: self.size_trend,
            persistence_score: self.persistence_score,
            is_attractor: self.is_attractor,
        }
    }
}

impl View for FlowPrediction {
    type V = PredictionView;

    open spec fn view(&self) -> PredictionView {
        PredictionView {
            predicted_stable_region_ids: views(self.predicted_stable_region_ids@),
            predicted_transient_region_ids: views(self.predicted_transient_region_ids@),
            convergent: self.convergent,
            momentum: self.momentum,
        }
    }
}

pub open spec fn concept_flow_views(s: Seq<ConceptFlowVector>) -> Seq<ConceptFlowView> {
    s.map_values(|c: ConceptFlowVector| c@)
}

pub open spec fn region_flow_views(s: Seq<RegionFlowVector>) -> Seq<RegionFlowView> {
    s.map_values(|r: RegionFlowVector| r@)
}

impl View for CognitiveFlowField {
    type V = FlowFieldView;

    open spec fn view(&self) -> FlowFieldView {
        FlowFieldView {
            concept_vectors: concept_flow_views(self.concept_vectors@),
            region_vectors: region_flow_views(self.region_vectors@),
            prediction: self.prediction@,
            canonical_hash: self.canonical_hash@,
        }
    }
}

// ── JSON layouts ─────────────────────────────────────────────────────────────

pub open spec fn concept_flow_json(c: ConceptFlowView) -> Seq<char> {
    "{\"concept\":"@ + json_str(c.concept) + ",\"region_flux\":"@ + dec_int(c.region_flux as int)
        + ",\"anchor_pull\":"@ + dec_int(c.anchor_pull as int) + ",\"net_direction\":"@ + dec_int(
        c.net_direction as int,
    ) + "}"@
}

pub open spec fn region_flow_json(r: RegionFlowView) -> Seq<char> {
    "{\"region_id\":"@ + json_str(r.region_id) + ",\"cohesion_trend\":"@ + dec_int(r.cohesion_trend as int)
        + ",\"size_trend\":"@ + dec_int(r.size_trend as int) + ",\"persistence_score\":"@ + dec_int(
        r.persistence_score as int,
    ) + ",\"is_attractor\":"@ + crate::text::bool_text(r.is_attractor) + "}"@
}

pub open spec fn prediction_json(p: PredictionView) -> Seq<char> {
    "{\"predicted_stable_region_ids\":"@ + json_strs(p.predicted_stable_region_ids)
        + ",\"predicted_transient_region_ids\":"@ + json_strs(p.predicted_transient_region_ids)
        + ",\"convergent\":"@ + crate::text::bool_text(p.convergent) + ",\"momentum\":"@ + dec_int(
        p.momentum as int,
    ) + "}"@
}

fn concept_flow_json_text(c: &ConceptFlowVector) -> (r: String)
    ensures
        r@ == concept_flow_json(c@),
{
    let mut out = String::new();
    out.append("{\"concept\":");
    push_json_str(&mut out, c.concept.as_str());
    out.append(",\"region_flux\":");
    push_i64(&mut out, c.region_flux);
    out.append(",\"anchor_pull\":");
    push_i64(&mut out, c.anchor_pull);
    out.append(",\"net_direction\":");
    push_i64(&mut out, c.net_direction);
    out.append("}");
    out
}

fn region_flow_json_text(r: &RegionFlowVector) -> (s: String)
    ensures
        s@ == region_flow_json(r@),
{
    let mut out = String::new();
    out.append("{\"region_id\":");
    push_json_str(&mut out, r.region_id.as_str());
    out.append(",\"cohesion_trend\":");
    push_i64(&mut out, r.cohesion_trend);
    out.append(",\"size_trend\":");
    push_i64(&mut out, r.size_trend);
    out.append(",\"persistence_score\":");
    push_i64(&mut out, r.persistence_score);
    out.append(",\"is_attractor\":");
    crate::text::push_bool(&mut out, r.is_attractor);
    out.append("}");
    out
}

fn prediction_json_text(p: &FlowPrediction) -> (s: String)
    ensures
        s@ == prediction_json(p@),
{
    let mut out = String::new();
    out.append("{\"predicted_stable_region_ids\":");
    push_json_strs(&mut out, &p.predicted_stable_region_ids);
    out.append(",\"predicted_transient_region_ids\":");
    push_json_strs(&mut out, &p.predicted_transient_region_ids);
    out.append(",\"convergent\":");
    crate::text::push_bool(&mut out, p.convergent);
    out.append(",\"momentum\":");
    push_i64(&mut out, p.momentum);
    out.append("}");
    out
}

fn concept_flows_json_text(v: &Vec<ConceptFlowVector>) -> (r: String)
    ensures
        r@ == json_list(concept_flow_views(v@).map_values(|c: ConceptFlowView| concept_flow_json(c))),
{
    let ghost items = concept_flow_views(v@).map_values(|c: ConceptFlowView| concept_flow_json(c));
    let mut parts: Vec<String> = Vec::new();
    let mut i: usize = 0;
    while i < v.len()
        invariant
            i <= v@.len(),
            items == concept_flow_views(v@).map_values(|c: ConceptFlowView| concept_flow_json(c)),
            views(parts@) == items.take(i as int),
        decreases v@.len() - i,
    {
        let ghost before = parts@;
        let piece = concept_flow_json_text(&v[i]);
        parts.push(piece);
        proof {
            assert(views(parts@) =~= views(before).push(items[i as int]));
        }
        i = i + 1;
        assert(views(parts@) =~= items.take(i as int));
    }
    assert(items.take(v@.len() as int) =~= items);
    let mut out = String::new();
    push_json_list(&mut out, &parts);
    out
}

fn region_flows_json_text(v: &Vec<RegionFlowVector>) -> (r: String)
    ensures
        r@ == json_list(region_flow_views(v@).map_values(|x: RegionFlowView| region_flow_json(x))),
{
    let ghost items = region_flow_views(v@).map_values(|x: RegionFlowView| region_flow_json(x));
    let mut parts: Vec<String> = Vec::new();
    let mut i: usize = 0;
    while i < v.len()
        invariant
            i <= v@.len(),
            items == region_flow_views(v@).map_values(|x: RegionFlowView| region_flow_json(x)),
            views(parts@) == items.take(i as int),
        decreases v@.len() - i,
    {
        let ghost before = parts@;
        let piece = region_flow_json_text(&v[i]);
        parts.push(piece);
        proof {
            assert(views(parts@) =~= views(before).push(items[i as int]));
        }
        i = i + 1;
        assert(views(parts@) =~= items.take(i as int));
    }
    assert(items.take(v@.len() as int) =~= items);
    let mut out = String::new();
    push_json_list(&mut out, &parts);
    out
}


// ── the flow model ───────────────────────────────────────────────────────────

/// Every region of every snapshot, snapshot by snapshot.
pub open spec fn all_regions(snaps: Seq<TopologyView>) -> Seq<RegionView>
    decreases snaps.len(),
{
    if snaps.len() == 0 {
        Seq::empty()
    } else {
        all_regions(snaps.drop_last()) + snaps.last().regions
    }
}

pub open spec fn ids_of(rs: Seq<RegionView>) -> Seq<Seq<char>> {
    rs.map_values(|r: RegionView| r.id)
}

/// The first region of `rs` with id `id`.
pub open spec fn first_with_id(rs: Seq<RegionView>, id: Seq<char>) -> Option<RegionView>
    decreases rs.len(),
{
    if rs.len() == 0 {
        None
    } else {
        match first_with_id(rs.drop_last(), id) {
            Some(r) => Some(r),
            None => if rs.last().id == id { Some(rs.last()) } else { None },
        }
    }
}

/// The last region of `rs` with id `id`.
pub open spec fn last_with_id(rs: Seq<RegionView>, id: Seq<char>) -> Option<RegionView>
    decreases rs.len(),
{
    if rs.len() == 0 {
        None
    } else if rs.last().id == id {
        Some(rs.last())
    } else {
        last_with_id(rs.drop_last(), id)
    }
}

/// How many regions of `rs` have id `id`.
pub open spec fn occurrences(rs: Seq<RegionView>, id: Seq<char>) -> int
    decreases rs.len(),
{
    if rs.len() == 0 {
        0
    } else {
        occurrences(rs.drop_last(), id) + (if rs.last().id == id { 1int } else { 0int })
    }
}

/// Whether some member is an anchor.
pub open spec fn holds_anchor(members: Seq<Seq<char>>, anchors: Seq<Seq<char>>) -> bool {
    exists|k: int| 0 <= k < members.len() && anchors.contains(#[trigger] members[k])
}

/// A region is an attractor when the first region with its id in the last
/// snapshot holds an anchor.
pub open spec fn attractor_in(last: TopologyView, id: Seq<char>, anchors: Seq<Seq<char>>) -> bool {
    match first_with_id(last.regions, id) {
        Some(r) => holds_anchor(r.members, anchors),
        None => false,
    }
}

/// Occurrences of `id` per snapshot, ×1000, rounded down.
pub open spec fn persistence(snaps: Seq<TopologyView>, id: Seq<char>) -> int {
    occurrences(all_regions(snaps), id) * 1000 / snaps.len() as int
}

/// The potential of a region: 1000 less its persistence.
pub open spec fn energy(snaps: Seq<TopologyView>, id: Seq<char>) -> int {
    1000 - persistence(snaps, id)
}

/// The trends of a region from its first to its last occurrence.
pub open spec fn base_flow(snaps: Seq<TopologyView>, anchors: Seq<Seq<char>>, id: Seq<char>) -> RegionFlowView {
    let rs = all_regions(snaps);
    let f = first_with_id(rs, id).unwrap();
    let l = last_with_id(rs, id).unwrap();
    RegionFlowView {
        region_id: id,
        cohesion_trend: (l.cohesion_score - f.cohesion_score) as i64,
        size_trend: (l.members.len() - f.members.len()) as i64,
        persistence_score: persistence(snaps, id) as i64,
        is_attractor: attractor_in(snaps.last(), id, anchors),
    }
}

/// The least energy among `ids`, over attractors only when `attractors`.
pub open spec fn least_energy(
    snaps: Seq<TopologyView>,
    anchors: Seq<Seq<char>>,
    ids: Seq<Seq<char>>,
    attractors: bool,
) -> Option<int>
    decreases ids.len(),
{
    if ids.len() == 0 {
        None
    } else {
        let rest = least_energy(snaps, anchors, ids.drop_last(), attractors);
        let x = ids.last();
        if attractors && !attractor_in(snaps.last(), x, anchors) {
            rest
        } else {
            match rest {
                Some(e) => Some(if energy(snaps, x) < e { energy(snaps, x) } else { e }),
                None => Some(energy(snaps, x)),
            }
        }
    }
}

/// The energy of the basin: the least attractor energy, else the least
/// energy, else 1000.
pub open spec fn basin_energy(snaps: Seq<TopologyView>, anchors: Seq<Seq<char>>, ids: Seq<Seq<char>>) -> int {
    match least_energy(snaps, anchors, ids, true) {
        Some(e) => e,
        None => match least_energy(snaps, anchors, ids, false) {
            Some(e) => e,
            None => 1000,
        },
    }
}

/// The id of the last region of `regions` that holds `c`.
pub open spec fn home_region(regions: Seq<RegionView>, c: Seq<char>) -> Option<Seq<char>>
    decreases regions.len(),
{
    if regions.len() == 0 {
        None
    } else if regions.last().members.contains(c) {
        Some(regions.last().id)
    } else {
        home_region(regions.drop_last(), c)
    }
}

/// The regions that one neighbour entry (`center` → `nbr`) joins to `id`.
pub open spec fn partner_of(regions: Seq<RegionView>, center: Seq<char>, nbr: Seq<char>, id: Seq<char>) -> Seq<Seq<char>> {
    match (home_region(regions, center), home_region(regions, nbr)) {
        (Some(a), Some(b)) => if a == b {
            Seq::empty()
        } else if a == id {
            seq![b]
        } else if b == id {
            seq![a]
        } else {
            Seq::empty()
        },
        _ => Seq::empty(),
    }
}

/// The regions joined to `id` by the neighbour entries of one neighbourhood.
pub open spec fn partners_in(regions: Seq<RegionView>, center: Seq<char>, nbrs: Seq<Seq<char>>, id: Seq<char>) -> Seq<Seq<char>>
    decreases nbrs.len(),
{
    if nbrs.len() == 0 {
        Seq::empty()
    } else {
        partners_in(regions, center, nbrs.drop_last(), id) + partner_of(regions, center, nbrs.last(), id)
    }
}

/// The regions of the last snapshot joined to `id` by a neighbourhood link.
pub open spec fn partners(t: TopologyView, nbs: Seq<crate::cognition::multiframe_topology::NeighborhoodView>, id: Seq<char>) -> Seq<Seq<char>>
    decreases nbs.len(),
{
    if nbs.len() == 0 {
        Seq::empty()
    } else {
        partners(t, nbs.drop_last(), id) + partners_in(t.regions, nbs.last().center, nbs.last().neighbors, id)
    }
}

/// The ids of `ids` that `keep` holds (in order), or all but `id` when
/// `keep` holds none of them.
pub open spec fn among(ids: Seq<Seq<char>>, keep: Seq<Seq<char>>, id: Seq<char>, fallback: bool) -> Seq<Seq<char>>
    decreases ids.len(),
{
    if ids.len() == 0 {
        Seq::empty()
    } else {
        let rest = among(ids.drop_last(), keep, id, fallback);
        let x = ids.last();
        if (fallback && x != id) || (!fallback && keep.contains(x)) {
            rest.push(x)
        } else {
            rest
        }
    }
}

/// The neighbour regions of `id`: those joined to it in the last snapshot,
/// or every other region when none is.
pub open spec fn neighbor_regions(snaps: Seq<TopologyView>, ids: Seq<Seq<char>>, id: Seq<char>) -> Seq<Seq<char>> {
    let linked = among(ids, partners(snaps.last(), snaps.last().neighborhoods, id), id, false);
    if linked.len() > 0 {
        linked
    } else {
        among(ids, Seq::empty(), id, true)
    }
}

/// The largest energy gap between `cur` and the regions of `ns` (0 for none).
pub open spec fn curvature(snaps: Seq<TopologyView>, ns: Seq<Seq<char>>, cur: int) -> int
    decreases ns.len(),
{
    if ns.len() == 0 {
        0
    } else {
        let rest = curvature(snaps, ns.drop_last(), cur);
        let g = abs_int(cur - energy(snaps, ns.last()));
        if g > rest { g } else { rest }
    }
}

/// The least of `cur` and the energies of the regions of `ns`.
pub open spec fn lowest(snaps: Seq<TopologyView>, ns: Seq<Seq<char>>, cur: int) -> int
    decreases ns.len(),
{
    if ns.len() == 0 {
        cur
    } else {
        let rest = lowest(snaps, ns.drop_last(), cur);
        let e = energy(snaps, ns.last());
        if e < rest { e } else { rest }
    }
}

/// The flow of a region after shaping by the energy landscape: a region
/// above the basin with a lower neighbour is pushed downhill (its cohesion
/// trend at least the drop plus an eighth of the curvature, its size trend
/// raised by half of that and at least 1); a region within 20 of the basin
/// energy has both trends halved.
pub open spec fn settled_flow(snaps: Seq<TopologyView>, anchors: Seq<Seq<char>>, ids: Seq<Seq<char>>, id: Seq<char>) -> RegionFlowView {
    let b = base_flow(snaps, anchors, id);
    let cur = energy(snaps, id);
    let basin = basin_energy(snaps, anchors, ids);
    let ns = neighbor_regions(snaps, ids, id);
    let curv = curvature(snaps, ns, cur);
    let low = lowest(snaps, ns, cur);
    let delta = low - cur;
    let coh = b.cohesion_trend as int;
    let size = b.size_trend as int;
    let coh1: int = if cur > basin && delta < 0 {
        let downhill = if cur - low > 1 { cur - low } else { 1 };
        let boosted = downhill + curv / 8;
        if boosted > abs_int(coh) { boosted } else { abs_int(coh) }
    } else if delta > 0 {
        -(if delta > abs_int(coh) { delta } else { abs_int(coh) })
    } else {
        coh
    };
    let size1: int = if cur > basin && delta < 0 {
        let downhill = if cur - low > 1 { cur - low } else { 1 };
        let boosted = downhill + curv / 8;
        if size + boosted / 2 > 1 { size + boosted / 2 } else { 1 }
    } else {
        size
    };
    let damp = abs_int(cur - basin) <= 20;
    RegionFlowView {
        cohesion_trend: (if damp { crate::cognition::phase61_structural_recovery::trunc_div(coh1, 2) } else { coh1 }) as i64,
        size_trend: (if damp { crate::cognition::phase61_structural_recovery::trunc_div(size1, 2) } else { size1 }) as i64,
        ..b
    }
}

/// The ids of the region vectors that look stable (persistence at least
/// 750 and a cohesion trend that is not negative), or, with `stable`
/// false, the others.
pub open spec fn predicted_ids(rvs: Seq<RegionFlowView>, stable: bool) -> Seq<Seq<char>>
    decreases rvs.len(),
{
    if rvs.len() == 0 {
        Seq::empty()
    } else {
        let rest = predicted_ids(rvs.drop_last(), stable);
        let r = rvs.last();
        let is_stable = r.persistence_score >= 750 && r.cohesion_trend >= 0;
        if is_stable == stable {
            rest.push(r.region_id)
        } else {
            rest
        }
    }
}

/// How many members are anchors.
pub open spec fn anchor_count(members: Seq<Seq<char>>, anchors: Seq<Seq<char>>) -> int
    decreases members.len(),
{
    if members.len() == 0 {
        0
    } else {
        anchor_count(members.drop_last(), anchors) + (if anchors.contains(members.last()) { 1int } else { 0int })
    }
}

/// The last region of `regions` that holds `c`.
pub open spec fn home(regions: Seq<RegionView>, c: Seq<char>) -> Option<RegionView>
    decreases regions.len(),
{
    if regions.len() == 0 {
        None
    } else if regions.last().members.contains(c) {
        Some(regions.last())
    } else {
        home(regions.drop_last(), c)
    }
}

/// Every member of every region, region by region.
pub open spec fn all_members(regions: Seq<RegionView>) -> Seq<Seq<char>>
    decreases regions.len(),
{
    if regions.len() == 0 {
        Seq::empty()
    } else {
        all_members(regions.drop_last()) + regions.last().members
    }
}

/// How concept `c` moved from `prev` to `curr`.
pub open spec fn concept_flow(prev: TopologyView, curr: TopologyView, anchors: Seq<Seq<char>>, c: Seq<char>) -> ConceptFlowView {
    let psz: int = match home(prev.regions, c) {
        Some(r) => r.members.len() as int,
        None => 0,
    };
    let csz: int = match home(curr.regions, c) {
        Some(r) => r.members.len() as int,
        None => 0,
    };
    let pull: int = match home(curr.regions, c) {
        Some(r) => anchor_count(r.members, anchors),
        None => 0,
    };
    let flux = csz - psz;
    ConceptFlowView {
        concept: c,
        region_flux: flux as i64,
        anchor_pull: pull as i64,
        net_direction: (flux + pull * 10 + (if anchors.contains(c) { 50int } else { 0int })) as i64,
    }
}

/// The flow of a series of topology snapshots.
pub open spec fn flow_of(snaps: Seq<TopologyView>, anchors: Seq<Seq<char>>) -> FlowFieldView {
    if snaps.len() == 0 {
        let prediction = PredictionView {
            predicted_stable_region_ids: Seq::empty(),
            predicted_transient_region_ids: Seq::empty(),
            convergent: true,
            momentum: 0,
        };
        FlowFieldView {
            concept_vectors: Seq::empty(),
            region_vectors: Seq::empty(),
            prediction,
            canonical_hash: json_hash(json_list(seq![json_list(Seq::empty()), prediction_json(prediction)])),
        }
    } else {
        let n = snaps.len() as int;
        let ids = listing(ids_of(all_regions(snaps)).to_set());
        let rvs = ids.map_values(|id: Seq<char>| settled_flow(snaps, anchors, ids, id));
        let cvs = if n >= 2 {
            let prev = snaps[n - 2];
            let curr = snaps[n - 1];
            listing(all_members(prev.regions).to_set().union(all_members(curr.regions).to_set())).map_values(
                |c: Seq<char>| concept_flow(prev, curr, anchors, c),
            )
        } else {
            Seq::empty()
        };
        let momentum: int = if n >= 2 { drift_of(snaps[n - 2], snaps[n - 1]).drift_score as int } else { 0 };
        let convergent = if n >= 3 {
            drift_of(snaps[n - 2], snaps[n - 1]).drift_score <= drift_of(snaps[n - 3], snaps[n - 2]).drift_score
        } else {
            momentum == 0
        };
        let prediction = PredictionView {
            predicted_stable_region_ids: predicted_ids(rvs, true),
            predicted_transient_region_ids: predicted_ids(rvs, false),
            convergent,
            momentum: momentum as i64,
        };
        FlowFieldView {
            concept_vectors: cvs,
            region_vectors: rvs,
            prediction,
            canonical_hash: json_hash(
                json_list(
                    seq![
                        json_list(cvs.map_values(|c: ConceptFlowView| concept_flow_json(c))),
                        json_list(rvs.map_values(|r: RegionFlowView| region_flow_json(r))),
                        prediction_json(prediction),
                    ],
                ),
            ),
        }
    }
}

/// Computing the flow overflows nowhere: the snapshots and their regions are
/// fewer than a machine can hold, each region's cohesion changes by an
/// `i64`, and the last comparisons fit.
pub open spec fn flow_fits(snaps: Seq<TopologyView>, anchors: Seq<Seq<char>>) -> bool {
    &&& snaps.len() <= MAX_TEXTS
    &&& all_regions(snaps).len() <= MAX_TEXTS
    &&& anchors.len() <= MAX_TEXTS
    &&& forall|k: int| 0 <= k < all_regions(snaps).len() ==> (#[trigger] all_regions(snaps)[k]).members.len() <= MAX_TEXTS
    &&& forall|k: int|
        0 <= k < all_regions(snaps).len() ==> crate::cognition::multiframe_topology::gap_fits(
            last_with_id(all_regions(snaps), (#[trigger] all_regions(snaps)[k]).id).unwrap().cohesion_score,
            first_with_id(all_regions(snaps), all_regions(snaps)[k].id).unwrap().cohesion_score,
        )
    &&& forall|i: int, j: int|
        0 <= i < snaps.len() && 0 <= j < snaps[i].regions.len() ==> (#[trigger] snaps[i].regions[j]).members.len() <= MAX_TEXTS
    &&& snaps.len() >= 2 ==> drift_fits(snaps[snaps.len() - 2], snaps[snaps.len() - 1])
    &&& snaps.len() >= 3 ==> drift_fits(snaps[snaps.len() - 3], snaps[snaps.len() - 2])
}


// ── scanning helpers ─────────────────────────────────────────────────────────

fn copy_region(r: &TopologicalRegion) -> (c: TopologicalRegion)
    ensures
        c@ == r@,
{
    TopologicalRegion {
        id: r.id.clone(),
        members: crate::text::copy_texts(&r.members),
        representative: r.representative.clone(),
        boundary_members: crate::text::copy_texts(&r.boundary_members),
        cohesion_score: r.cohesion_score,
    }
}

fn flatten_regions(snaps: &Vec<CognitiveTopology>) -> (r: Vec<TopologicalRegion>)
    ensures
        region_views(r@) == all_regions(topology_views(snaps@)),
{
    let ghost sv = topology_views(snaps@);
    let mut out: Vec<TopologicalRegion> = Vec::new();
    let mut i: usize = 0;
    while i < snaps.len()
        invariant
            sv == topology_views(snaps@),
            i <= sv.len(),
            region_views(out@) == all_regions(sv.take(i as int)),
        decreases sv.len() - i,
    {
        let ghost start = region_views(out@);
        let ghost rs = sv[i as int].regions;
        let mut j: usize = 0;
        while j < snaps[i].regions.len()
            invariant
                sv == topology_views(snaps@),
                i < sv.len(),
                rs == sv[i as int].regions,
                j <= rs.len(),
                region_views(out@) == start + rs.take(j as int),
            decreases rs.len() - j,
        {
            let ghost before = out@;
            let c = copy_region(&snaps[i].regions[j]);
            out.push(c);
            proof {
                assert(region_views(out@) =~= region_views(before).push(rs[j as int]));
                assert(rs.take(j + 1) =~= rs.take(j as int).push(rs[j as int]));
            }
            j = j + 1;
        }
        proof {
            assert(rs.take(rs.len() as int) =~= rs);
            let tk = sv.take(i + 1);
            assert(tk.drop_last() =~= sv.take(i as int));
            assert(tk.last() == sv[i as int]);
        }
        i = i + 1;
    }
    assert(sv.take(sv.len() as int) =~= sv);
    out
}

proof fn lemma_found_with_id(rs: Seq<RegionView>, id: Seq<char>)
    requires
        ids_of(rs).contains(id),
    ensures
        first_with_id(rs, id) is Some,
        last_with_id(rs, id) is Some,
        first_with_id(rs, id).unwrap().id == id,
        last_with_id(rs, id).unwrap().id == id,
    decreases rs.len(),
{
    let k = choose|k: int| 0 <= k < ids_of(rs).len() && ids_of(rs)[k] == id;
    if rs.last().id != id {
        assert(ids_of(rs.drop_last())[k] == id);
        lemma_found_with_id(rs.drop_last(), id);
    } else if ids_of(rs.drop_last()).contains(id) {
        lemma_found_with_id(rs.drop_last(), id);
    } else {
        lemma_first_none(rs.drop_last(), id);
    }
}

proof fn lemma_first_none(rs: Seq<RegionView>, id: Seq<char>)
    requires
        !ids_of(rs).contains(id),
    ensures
        first_with_id(rs, id) is None,
    decreases rs.len(),
{
    if rs.len() > 0 {
        assert(ids_of(rs)[rs.len() - 1] == rs.last().id);
        assert forall|k: int| 0 <= k < ids_of(rs.drop_last()).len() implies ids_of(rs.drop_last())[k] != id by {
            assert(ids_of(rs)[k] == ids_of(rs.drop_last())[k]);
        }
        lemma_first_none(rs.drop_last(), id);
    }
}

fn region_id_texts(flat: &Vec<TopologicalRegion>) -> (r: Vec<String>)
    ensures
        views(r@) == ids_of(region_views(flat@)),
{
    let ghost rv = region_views(flat@);
    let mut out: Vec<String> = Vec::new();
    let mut i: usize = 0;
    while i < flat.len()
        invariant
            rv == region_views(flat@),
            i <= rv.len(),
            views(out@) == ids_of(rv).take(i as int),
        decreases rv.len() - i,
    {
        let ghost before = out@;
        out.push(flat[i].id.clone());
        proof {
            assert(views(out@) =~= views(before).push(rv[i as int].id));
            assert(ids_of(rv).take(i + 1) =~= ids_of(rv).take(i as int).push(ids_of(rv)[i as int]));
        }
        i = i + 1;
    }
    assert(ids_of(rv).take(rv.len() as int) =~= ids_of(rv));
    out
}

/// Whether one of `members` is an anchor.
fn holds_anchor_of(members: &Vec<String>, anchors: &Vec<String>) -> (r: bool)
    ensures
        r == holds_anchor(views(members@), views(anchors@)),
{
    let mut k: usize = 0;
    while k < members.len()
        invariant
            k <= members@.len(),
            forall|m: int| 0 <= m < k ==> !views(anchors@).contains(#[trigger] views(members@)[m]),
        decreases members@.len() - k,
    {
        if crate::text::has_text(anchors, members[k].as_str()) {
            assert(views(anchors@).contains(views(members@)[k as int]));
            return true;
        }
        k = k + 1;
    }
    false
}

fn attractor_of(last: &CognitiveTopology, id: &String, anchors: &Vec<String>) -> (r: bool)
    ensures
        r == attractor_in(last@, id@, views(anchors@)),
{
    let ghost rs = last@.regions;
    let mut j: usize = 0;
    while j < last.regions.len()
        invariant
            rs == last@.regions,
            j <= rs.len(),
            first_with_id(rs.take(j as int), id@) is None,
        decreases rs.len() - j,
    {
        proof {
            assert(rs.take(j + 1).drop_last() =~= rs.take(j as int));
            assert(rs.take(j + 1).last() == rs[j as int]);
        }
        if same_text(&last.regions[j].id, id) {
            proof {
                lemma_first_of_prefix(rs, j as int + 1, id@);
            }
            return holds_anchor_of(&last.regions[j].members, anchors);
        }
        j = j + 1;
    }
    assert(rs.take(rs.len() as int) =~= rs);
    false
}

/// The first match of a prefix is the first match of the whole.
proof fn lemma_first_of_prefix(rs: Seq<RegionView>, k: int, id: Seq<char>)
    requires
        0 <= k <= rs.len(),
        first_with_id(rs.take(k), id) is Some,
    ensures
        first_with_id(rs, id) == first_with_id(rs.take(k), id),
    decreases rs.len() - k,
{
    if k < rs.len() {
        assert(rs.take(k + 1).drop_last() =~= rs.take(k));
        lemma_first_of_prefix(rs, k + 1, id);
    } else {
        assert(rs.take(k) =~= rs);
    }
}

/// How often `id` occurs among the regions, with the first and last
/// occurrence.
fn occurrence_scan(flat: &Vec<TopologicalRegion>, id: &String) -> (r: (u64, usize, usize))
    requires
        flat@.len() <= MAX_TEXTS,
        ids_of(region_views(flat@)).contains(id@),
    ensures
        r.0 == occurrences(region_views(flat@), id@),
        r.1 < flat@.len(),
        r.2 < flat@.len(),
        first_with_id(region_views(flat@), id@) == Some(
            region_views(flat@)[r.1 as int],
        ),
        last_with_id(region_views(flat@), id@) == Some(
            region_views(flat@)[r.2 as int],
        ),
{
    let ghost rv = region_views(flat@);
    let mut count: u64 = 0;
    let mut first: usize = 0;
    let mut found = false;
    let mut last: usize = 0;
    let mut j: usize = 0;
    while j < flat.len()
        invariant
            rv == region_views(flat@),
            rv.len() <= MAX_TEXTS,
            j <= rv.len(),
            count == occurrences(rv.take(j as int), id@),
            count <= j,
            found == (first_with_id(rv.take(j as int), id@) is Some),
            found ==> first < j && first_with_id(rv.take(j as int), id@) == Some(rv[first as int]),
            found ==> last < j && last_with_id(rv.take(j as int), id@) == Some(rv[last as int]),
            !found ==> last_with_id(rv.take(j as int), id@) is None,
        decreases rv.len() - j,
    {
        proof {
            assert(rv.take(j + 1).drop_last() =~= rv.take(j as int));
            assert(rv.take(j + 1).last() == rv[j as int]);
        }
        if same_text(&flat[j].id, id) {
            count = count + 1;
            if !found {
                first = j;
                found = true;
            }
            last = j;
        }
        j = j + 1;
    }
    assert(rv.take(rv.len() as int) =~= rv);
    proof {
        lemma_found_with_id(rv, id@);
    }
    (count, first, last)
}


fn base_flow_of(
    snaps: &Vec<CognitiveTopology>,
    flat: &Vec<TopologicalRegion>,
    anchors: &Vec<String>,
    id: &String,
) -> (r: RegionFlowVector)
    requires
        snaps@.len() >= 1,
        region_views(flat@) == all_regions(topology_views(snaps@)),
        flow_fits(topology_views(snaps@), views(anchors@)),
        ids_of(all_regions(topology_views(snaps@))).contains(id@),
    ensures
        r@ == base_flow(topology_views(snaps@), views(anchors@), id@),
        r.persistence_score == persistence(topology_views(snaps@), id@),
        0 <= r.persistence_score <= 1000 * MAX_TEXTS,
        abs_int(r.cohesion_trend as int) <= i64::MAX,
        abs_int(r.size_trend as int) <= MAX_TEXTS,
{
    let ghost sv = topology_views(snaps@);
    let ghost rv = region_views(flat@);
    let n = snaps.len();
    let (count, f, l) = occurrence_scan(flat, id);
    proof {
        assert(rv[l as int].id == id@) by {
            lemma_found_with_id(rv, id@);
        }
        assert(crate::cognition::multiframe_topology::gap_fits(
            last_with_id(rv, rv[l as int].id).unwrap().cohesion_score,
            first_with_id(rv, rv[l as int].id).unwrap().cohesion_score,
        ));
        assert(rv[l as int].members.len() <= MAX_TEXTS);
        assert(rv[f as int].members.len() <= MAX_TEXTS);
        lemma_occurrences_bound(rv, id@);
        assert(count * 1000 <= MAX_TEXTS * 1000);
        assert(sv.last() == snaps@[n - 1]@);
    }
    let cohesion_trend = flat[l].cohesion_score - flat[f].cohesion_score;
    let size_trend = (flat[l].members.len() as i64) - (flat[f].members.len() as i64);
    let persistence_score = ((count as i64) * 1000) / (n as i64);
    let is_attractor = attractor_of(&snaps[n - 1], id, anchors);
    proof {
        assert(persistence_score <= count * 1000) by (nonlinear_arith)
            requires
                persistence_score == (count * 1000) / (n as int),
                n >= 1,
                count >= 0,
        ;
    }
    RegionFlowVector { region_id: id.clone(), cohesion_trend, size_trend, persistence_score, is_attractor }
}

proof fn lemma_occurrences_bound(rs: Seq<RegionView>, id: Seq<char>)
    ensures
        0 <= occurrences(rs, id) <= rs.len(),
    decreases rs.len(),
{
    if rs.len() > 0 {
        lemma_occurrences_bound(rs.drop_last(), id);
    }
}

fn home_region_of(regions: &Vec<TopologicalRegion>, c: &String) -> (r: Option<String>)
    ensures
        opt_view(r) == home_region(region_views(regions@), c@),
{
    let ghost rv = region_views(regions@);
    let mut found: Option<String> = None;
    let mut j: usize = 0;
    while j < regions.len()
        invariant
            rv == region_views(regions@),
            j <= rv.len(),
            opt_view(found) == home_region(rv.take(j as int), c@),
        decreases rv.len() - j,
    {
        proof {
            assert(rv.take(j + 1).drop_last() =~= rv.take(j as int));
            assert(rv.take(j + 1).last() == rv[j as int]);
        }
        if crate::text::has_text(&regions[j].members, c.as_str()) {
            found = Some(regions[j].id.clone());
        }
        j = j + 1;
    }
    assert(rv.take(rv.len() as int) =~= rv);
    found
}

fn partners_of(last: &CognitiveTopology, id: &String) -> (r: Vec<String>)
    ensures
        views(r@) == partners(last@, last@.neighborhoods, id@),
{
    let ghost nbs = last@.neighborhoods;
    let mut out: Vec<String> = Vec::new();
    let mut k: usize = 0;
    while k < last.neighborhoods.len()
        invariant
            nbs == last@.neighborhoods,
            k <= nbs.len(),
            views(out@) == partners(last@, nbs.take(k as int), id@),
        decreases nbs.len() - k,
    {
        let nb = &last.neighborhoods[k];
        let ghost start = views(out@);
        let ghost nv = nbs[k as int];
        let src = home_region_of(&last.regions, &nb.center);
        let mut j: usize = 0;
        while j < nb.neighbors.len()
            invariant
                nv == nb@,
                j <= nv.neighbors.len(),
                opt_view(src) == home_region(last@.regions, nv.center),
                views(out@) == start + partners_in(last@.regions, nv.center, nv.neighbors.take(j as int), id@),
            decreases nv.neighbors.len() - j,
        {
            let ghost before = views(out@);
            let dst = home_region_of(&last.regions, &nb.neighbors[j]);
            proof {
                let tk = nv.neighbors.take(j + 1);
                assert(tk.drop_last() =~= nv.neighbors.take(j as int));
                assert(tk.last() == nv.neighbors[j as int]);
            }
            match (&src, &dst) {
                (Some(a), Some(b)) => {
                    if !same_text(a, b) {
                        if same_text(a, id) {
                            out.push(b.clone());
                            assert(views(out@) =~= before + seq![b@]);
                        } else if same_text(b, id) {
                            out.push(a.clone());
                            assert(views(out@) =~= before + seq![a@]);
                        } else {
                            assert(views(out@) =~= before + Seq::<Seq<char>>::empty());
                        }
                    } else {
                        assert(views(out@) =~= before + Seq::<Seq<char>>::empty());
                    }
                },
                _ => {
                    assert(views(out@) =~= before + Seq::<Seq<char>>::empty());
                },
            }
            j = j + 1;
        }
        proof {
            assert(nv.neighbors.take(nv.neighbors.len() as int) =~= nv.neighbors);
            let tk = nbs.take(k + 1);
            assert(tk.drop_last() =~= nbs.take(k as int));
            assert(tk.last() == nv);
        }
        k = k + 1;
    }
    assert(nbs.take(nbs.len() as int) =~= nbs);
    out
}

fn anchor_count_of(members: &Vec<String>, anchors: &Vec<String>) -> (c: i64)
    requires
        members@.len() <= MAX_TEXTS,
    ensures
        c == anchor_count(views(members@), views(anchors@)),
        0 <= c <= members@.len(),
{
    let ghost mv = views(members@);
    let mut c: i64 = 0;
    let mut k: usize = 0;
    while k < members.len()
        invariant
            mv == views(members@),
            mv.len() <= MAX_TEXTS,
            k <= mv.len(),
            c == anchor_count(mv.take(k as int), views(anchors@)),
            0 <= c <= k,
        decreases mv.len() - k,
    {
        proof {
            assert(mv.take(k + 1).drop_last() =~= mv.take(k as int));
            assert(mv.take(k + 1).last() == mv[k as int]);
        }
        if crate::text::has_text(anchors, members[k].as_str()) {
            c = c + 1;
        }
        k = k + 1;
    }
    assert(mv.take(mv.len() as int) =~= mv);
    c
}

fn home_index(regions: &Vec<TopologicalRegion>, c: &String) -> (r: Option<usize>)
    ensures
        match r {
            Some(k) => k < regions@.len() && home(region_views(regions@), c@) == Some(region_views(regions@)[k as int]),
            None => home(region_views(regions@), c@) is None,
        },
{
    let ghost rv = region_views(regions@);
    let mut found: Option<usize> = None;
    let mut j: usize = 0;
    while j < regions.len()
        invariant
            rv == region_views(regions@),
            j <= rv.len(),
            match found {
                Some(k) => k < j && home(rv.take(j as int), c@) == Some(rv[k as int]),
                None => home(rv.take(j as int), c@) is None,
            },
        decreases rv.len() - j,
    {
        proof {
            assert(rv.take(j + 1).drop_last() =~= rv.take(j as int));
            assert(rv.take(j + 1).last() == rv[j as int]);
        }
        if crate::text::has_text(&regions[j].members, c.as_str()) {
            found = Some(j);
        }
        j = j + 1;
    }
    assert(rv.take(rv.len() as int) =~= rv);
    found
}

fn concept_flow_of(
    prev: &CognitiveTopology,
    curr: &CognitiveTopology,
    anchors: &Vec<String>,
    c: &String,
) -> (r: ConceptFlowVector)
    requires
        forall|j: int| 0 <= j < prev@.regions.len() ==> (#[trigger] prev@.regions[j]).members.len() <= MAX_TEXTS,
        forall|j: int| 0 <= j < curr@.regions.len() ==> (#[trigger] curr@.regions[j]).members.len() <= MAX_TEXTS,
    ensures
        r@ == concept_flow(prev@, curr@, views(anchors@), c@),
{
    let psz: i64 = match home_index(&prev.regions, c) {
        Some(k) => {
            assert(prev@.regions[k as int].members.len() <= MAX_TEXTS);
            prev.regions[k].members.len() as i64
        },
        None => 0,
    };
    let (csz, pull): (i64, i64) = match home_index(&curr.regions, c) {
        Some(k) => {
            assert(curr@.regions[k as int].members.len() <= MAX_TEXTS);
            (curr.regions[k].members.len() as i64, anchor_count_of(&curr.regions[k].members, anchors))
        },
        None => (0, 0),
    };
    let region_flux = csz - psz;
    let bonus: i64 = if crate::text::has_text(anchors, c.as_str()) {
        50
    } else {
        0
    };
    ConceptFlowVector { concept: c.clone(), region_flux, anchor_pull: pull, net_direction: region_flux + pull * 10 + bonus }
}


proof fn lemma_among_step(ids: Seq<Seq<char>>, keep: Seq<Seq<char>>, id: Seq<char>, fallback: bool, m: int)
    requires
        0 <= m < ids.len(),
    ensures
        among(ids.take(m + 1), keep, id, fallback) == (if (fallback && ids[m] != id) || (!fallback && keep.contains(
            ids[m],
        )) {
            among(ids.take(m), keep, id, fallback).push(ids[m])
        } else {
            among(ids.take(m), keep, id, fallback)
        }),
{
    assert(ids.take(m + 1).drop_last() =~= ids.take(m));
    assert(ids.take(m + 1).last() == ids[m]);
}

/// The energies of `ns` (drawn from `ids`) stay within the persistence range.
pub open spec fn energies_bounded(snaps: Seq<TopologyView>, ids: Seq<Seq<char>>) -> bool {
    forall|m: int| 0 <= m < ids.len() ==> 1000 - 1000 * MAX_TEXTS <= #[trigger] energy(snaps, ids[m]) <= 1000
}

fn settle(
    snaps: &Vec<CognitiveTopology>,
    anchors: &Vec<String>,
    ids: &Vec<String>,
    energies: &Vec<i64>,
    basin: i64,
    b: &RegionFlowVector,
    k: usize,
) -> (r: RegionFlowVector)
    requires
        snaps@.len() >= 1,
        k < ids@.len(),
        energies@.len() == ids@.len(),
        forall|m: int| 0 <= m < ids@.len() ==> energies@[m] == #[trigger] energy(topology_views(snaps@), views(ids@)[m]),
        energies_bounded(topology_views(snaps@), views(ids@)),
        basin == basin_energy(topology_views(snaps@), views(anchors@), views(ids@)),
        1000 - 1000 * MAX_TEXTS <= basin <= 1000,
        b@ == base_flow(topology_views(snaps@), views(anchors@), views(ids@)[k as int]),
        abs_int(b.cohesion_trend as int) <= i64::MAX,
        abs_int(b.size_trend as int) <= MAX_TEXTS,
    ensures
        r@ == settled_flow(topology_views(snaps@), views(anchors@), views(ids@), views(ids@)[k as int]),
{
    let ghost sv = topology_views(snaps@);
    let ghost iv = views(ids@);
    let ghost id = iv[k as int];
    let n = snaps.len();
    proof {
        assert(sv.last() == snaps@[n - 1]@);
    }
    let partner_list = partners_of(&snapshots_last(snaps), &ids[k]);
    let ghost keep = views(partner_list@);
    let ghost pv = partners(sv.last(), sv.last().neighborhoods, id);
    assert(keep == pv);
    let cur = energies[k];
    let mut any = false;
    let mut m: usize = 0;
    assert(iv.take(0) =~= Seq::<Seq<char>>::empty());
    while m < ids.len()
        invariant
            iv == views(ids@),
            m <= iv.len(),
            keep == views(partner_list@),
            any == (among(iv.take(m as int), keep, id, false).len() > 0),
        decreases iv.len() - m,
    {
        proof {
            lemma_among_step(iv, keep, id, false, m as int);
        }
        if crate::text::has_text(&partner_list, ids[m].as_str()) {
            any = true;
        }
        m = m + 1;
    }
    assert(iv.take(iv.len() as int) =~= iv);
    let fallback = !any;
    assert(energy(sv, iv[k as int]) == energies@[k as int]);
    let mut curv: i64 = 0;
    let mut low: i64 = cur;
    let mut m: usize = 0;
    while m < ids.len()
        invariant
            iv == views(ids@),
            sv == topology_views(snaps@),
            m <= iv.len(),
            keep == views(partner_list@),
            energies@.len() == iv.len(),
            forall|q: int| 0 <= q < iv.len() ==> energies@[q] == #[trigger] energy(sv, iv[q]),
            energies_bounded(sv, iv),
            k < iv.len(),
            cur == energy(sv, iv[k as int]),
            id == iv[k as int],
            curv == curvature(sv, among(iv.take(m as int), keep, id, fallback), cur as int),
            low == lowest(sv, among(iv.take(m as int), keep, id, fallback), cur as int),
            0 <= curv <= 1000 * MAX_TEXTS,
            1000 - 1000 * MAX_TEXTS <= low <= cur,
        decreases iv.len() - m,
    {
        proof {
            lemma_among_step(iv, keep, id, fallback, m as int);
            assert(energy(sv, iv[m as int]) == energies@[m as int]);
            let a = among(iv.take(m as int), keep, id, fallback);
            assert(a.push(iv[m as int]).drop_last() =~= a);
            assert(a.push(iv[m as int]).last() == iv[m as int]);
        }
        let take = if fallback {
            !same_text(&ids[m], &ids[k])
        } else {
            crate::text::has_text(&partner_list, ids[m].as_str())
        };
        if take {
            let e = energies[m];
            let g = if cur - e < 0 {
                e - cur
            } else {
                cur - e
            };
            if g > curv {
                curv = g;
            }
            if e < low {
                low = e;
            }
        }
        m = m + 1;
    }
    assert(iv.take(iv.len() as int) =~= iv);
    proof {
        lemma_among_fallback(iv, keep, id);
    }
    let delta = low - cur;
    let coh = b.cohesion_trend;
    let size = b.size_trend;
    let abs_coh = if coh < 0 {
        -coh
    } else {
        coh
    };
    let mut coh1 = coh;
    let mut size1 = size;
    if cur > basin && delta < 0 {
        let downhill = if cur - low > 1 {
            cur - low
        } else {
            1
        };
        let boosted = downhill + curv / 8;
        coh1 = if boosted > abs_coh {
            boosted
        } else {
            abs_coh
        };
        size1 = if size + boosted / 2 > 1 {
            size + boosted / 2
        } else {
            1
        };
    } else if delta > 0 {
        coh1 = -(if delta > abs_coh {
            delta
        } else {
            abs_coh
        });
    }
    let gap = if cur - basin < 0 {
        basin - cur
    } else {
        cur - basin
    };
    if gap <= 20 {
        coh1 = coh1 / 2;
        size1 = size1 / 2;
    }
    RegionFlowVector {
        region_id: b.region_id.clone(),
        cohesion_trend: coh1,
        size_trend: size1,
        persistence_score: b.persistence_score,
        is_attractor: b.is_attractor,
    }
}

proof fn lemma_among_fallback(ids: Seq<Seq<char>>, keep: Seq<Seq<char>>, id: Seq<char>)
    ensures
        among(ids, keep, id, true) == among(ids, Seq::empty(), id, true),
    decreases ids.len(),
{
    if ids.len() > 0 {
        lemma_among_fallback(ids.drop_last(), keep, id);
    }
}

fn snapshots_last(snaps: &Vec<CognitiveTopology>) -> (r: &CognitiveTopology)
    requires
        snaps@.len() >= 1,
    ensures
        r@ == topology_views(snaps@).last(),
{
    &snaps[snaps.len() - 1]
}


fn all_members_list(regions: &Vec<TopologicalRegion>, out: &mut Vec<String>)
    ensures
        views(final(out)@) == views(old(out)@) + all_members(region_views(regions@)),
{
    let ghost rv = region_views(regions@);
    let ghost start = views(out@);
    let mut j: usize = 0;
    while j < regions.len()
        invariant
            rv == region_views(regions@),
            j <= rv.len(),
            views(out@) == start + all_members(rv.take(j as int)),
        decreases rv.len() - j,
    {
        let ghost mid = views(out@);
        let ms = &regions[j].members;
        let mut q: usize = 0;
        while q < ms.len()
            invariant
                q <= ms@.len(),
                views(out@) == mid + views(ms@).take(q as int),
            decreases ms@.len() - q,
        {
            let ghost before = out@;
            out.push(ms[q].clone());
            proof {
                assert(views(out@) =~= views(before).push(views(ms@)[q as int]));
                assert(views(ms@).take(q + 1) =~= views(ms@).take(q as int).push(views(ms@)[q as int]));
            }
            q = q + 1;
        }
        proof {
            assert(views(ms@).take(ms@.len() as int) =~= views(ms@));
            let tk = rv.take(j + 1);
            assert(tk.drop_last() =~= rv.take(j as int));
            assert(tk.last() == rv[j as int]);
            assert(views(out@) =~= start + all_members(rv.take(j + 1)));
        }
        j = j + 1;
    }
    assert(rv.take(rv.len() as int) =~= rv);
}

pub proof fn lemma_concat_to_set(a: Seq<Seq<char>>, b: Seq<Seq<char>>)
    ensures
        (a + b).to_set() == a.to_set().union(b.to_set()),
{
    assert forall|x: Seq<char>| #[trigger] (a + b).to_set().contains(x) <==> a.to_set().union(b.to_set()).contains(x) by {
        if (a + b).contains(x) {
            let k = choose|k: int| 0 <= k < (a + b).len() && (a + b)[k] == x;
            if k < a.len() {
                assert(a[k] == x);
            } else {
                assert(b[k - a.len()] == x);
            }
        }
        if a.contains(x) {
            let k = choose|k: int| 0 <= k < a.len() && a[k] == x;
            assert((a + b)[k] == x);
        }
        if b.contains(x) {
            let k = choose|k: int| 0 <= k < b.len() && b[k] == x;
            assert((a + b)[a.len() + k] == x);
        }
    }
    assert((a + b).to_set() =~= a.to_set().union(b.to_set()));
}

fn predicted_list(rvs: &Vec<RegionFlowVector>, stable: bool) -> (r: Vec<String>)
    ensures
        views(r@) == predicted_ids(region_flow_views(rvs@), stable),
{
    let ghost v = region_flow_views(rvs@);
    let mut out: Vec<String> = Vec::new();
    let mut m: usize = 0;
    while m < rvs.len()
        invariant
            v == region_flow_views(rvs@),
            m <= v.len(),
            views(out@) == predicted_ids(v.take(m as int), stable),
        decreases v.len() - m,
    {
        let ghost before = out@;
        proof {
            assert(v.take(m + 1).drop_last() =~= v.take(m as int));
            assert(v.take(m + 1).last() == v[m as int]);
        }
        let r = &rvs[m];
        let is_stable = r.persistence_score >= 750 && r.cohesion_trend >= 0;
        if is_stable == stable {
            out.push(r.region_id.clone());
            proof {
                assert(views(out@) =~= views(before).push(v[m as int].region_id));
            }
        }
        m = m + 1;
    }
    assert(v.take(v.len() as int) =~= v);
    out
}

fn base_vectors(
    snapshots: &Vec<CognitiveTopology>,
    flat: &Vec<TopologicalRegion>,
    anchor_basis_ids: &Vec<String>,
    ids: &Vec<String>,
) -> (r: (Vec<RegionFlowVector>, Vec<i64>))
    requires
        snapshots@.len() >= 1,
        region_views(flat@) == all_regions(topology_views(snapshots@)),
        flow_fits(topology_views(snapshots@), views(anchor_basis_ids@)),
        forall|m: int| 0 <= m < ids@.len() ==> ids_of(all_regions(topology_views(snapshots@))).contains(#[trigger] views(ids@)[m]),
    ensures
        r.0@.len() == ids@.len(),
        r.1@.len() == ids@.len(),
        forall|m: int| 0 <= m < ids@.len() ==> (#[trigger] r.0@[m])@ == base_flow(topology_views(snapshots@), views(anchor_basis_ids@), views(ids@)[m]),
        forall|m: int| 0 <= m < ids@.len() ==> abs_int((#[trigger] r.0@[m]).cohesion_trend as int) <= i64::MAX,
        forall|m: int| 0 <= m < ids@.len() ==> abs_int((#[trigger] r.0@[m]).size_trend as int) <= MAX_TEXTS,
        forall|m: int| 0 <= m < ids@.len() ==> r.1@[m] == #[trigger] energy(topology_views(snapshots@), views(ids@)[m]),
        energies_bounded(topology_views(snapshots@), views(ids@)),
{
    let ghost sv = topology_views(snapshots@);
    let ghost av = views(anchor_basis_ids@);
    let ghost iv = views(ids@);
    let ghost rs = all_regions(sv);
    let mut base: Vec<RegionFlowVector> = Vec::new();
    let mut energies: Vec<i64> = Vec::new();
    let mut k: usize = 0;
    while k < ids.len()
        invariant
            sv == topology_views(snapshots@),
            av == views(anchor_basis_ids@),
            rs == all_regions(sv),
            region_views(flat@) == rs,
            sv.len() >= 1,
            flow_fits(sv, av),
            iv == views(ids@),
            forall|m: int| 0 <= m < iv.len() ==> ids_of(rs).contains(#[trigger] iv[m]),
            k <= iv.len(),
            base@.len() == k,
            energies@.len() == k,
            forall|m: int| 0 <= m < k ==> (#[trigger] base@[m])@ == base_flow(sv, av, iv[m]),
            forall|m: int| 0 <= m < k ==> abs_int((#[trigger] base@[m]).cohesion_trend as int) <= i64::MAX,
            forall|m: int| 0 <= m < k ==> abs_int((#[trigger] base@[m]).size_trend as int) <= MAX_TEXTS,
            forall|m: int| 0 <= m < k ==> energies@[m] == #[trigger] energy(sv, iv[m]),
            forall|m: int| 0 <= m < k ==> 1000 - 1000 * MAX_TEXTS <= #[trigger] energy(sv, iv[m]) <= 1000,
        decreases iv.len() - k,
    {
        assert(ids_of(rs).contains(iv[k as int]));
        let b = base_flow_of(snapshots, flat, anchor_basis_ids, &ids[k]);
        let e = 1000 - b.persistence_score;
        base.push(b);
        energies.push(e);
        k = k + 1;
    }
    (base, energies)
}

fn basin_of(
    snapshots: &Vec<CognitiveTopology>,
    anchor_basis_ids: &Vec<String>,
    ids: &Vec<String>,
    base: &Vec<RegionFlowVector>,
    energies: &Vec<i64>,
) -> (b: i64)
    requires
        base@.len() == ids@.len(),
        energies@.len() == ids@.len(),
        forall|m: int| 0 <= m < ids@.len() ==> (#[trigger] base@[m])@ == base_flow(topology_views(snapshots@), views(anchor_basis_ids@), views(ids@)[m]),
        forall|m: int| 0 <= m < ids@.len() ==> energies@[m] == #[trigger] energy(topology_views(snapshots@), views(ids@)[m]),
        energies_bounded(topology_views(snapshots@), views(ids@)),
    ensures
        b == basin_energy(topology_views(snapshots@), views(anchor_basis_ids@), views(ids@)),
        1000 - 1000 * MAX_TEXTS <= b <= 1000,
{
    let ghost sv = topology_views(snapshots@);
    let ghost av = views(anchor_basis_ids@);
    let ghost iv = views(ids@);
    let mut min_att: Option<i64> = None;
    let mut min_all: Option<i64> = None;
    let mut m: usize = 0;
    assert(iv.take(0) =~= Seq::<Seq<char>>::empty());
    while m < ids.len()
        invariant
            sv == topology_views(snapshots@),
            av == views(anchor_basis_ids@),
            iv == views(ids@),
            base@.len() == iv.len(),
            energies@.len() == iv.len(),
            forall|q: int| 0 <= q < iv.len() ==> (#[trigger] base@[q])@ == base_flow(sv, av, iv[q]),
            forall|q: int| 0 <= q < iv.len() ==> energies@[q] == #[trigger] energy(sv, iv[q]),
            energies_bounded(sv, iv),
            m <= iv.len(),
            match min_att {
                Some(e) => least_energy(sv, av, iv.take(m as int), true) == Some(e as int) && 1000 - 1000
                    * MAX_TEXTS <= e <= 1000,
                None => least_energy(sv, av, iv.take(m as int), true) is None,
            },
            match min_all {
                Some(e) => least_energy(sv, av, iv.take(m as int), false) == Some(e as int) && 1000 - 1000
                    * MAX_TEXTS <= e <= 1000,
                None => least_energy(sv, av, iv.take(m as int), false) is None,
            },
        decreases iv.len() - m,
    {
        proof {
            assert(iv.take(m + 1).drop_last() =~= iv.take(m as int));
            assert(iv.take(m + 1).last() == iv[m as int]);
            assert(energies@[m as int] == energy(sv, iv[m as int]));
            assert(base@[m as int]@ == base_flow(sv, av, iv[m as int]));
        }
        let e = energies[m];
        if base[m].is_attractor {
            min_att = match min_att {
                Some(x) => Some(if e < x { e } else { x }),
                None => Some(e),
            };
        }
        min_all = match min_all {
            Some(x) => Some(if e < x { e } else { x }),
            None => Some(e),
        };
        m = m + 1;
    }
    assert(iv.take(iv.len() as int) =~= iv);
    match min_att {
        Some(e) => e,
        None => match min_all {
            Some(e) => e,
            None => 1000,
        },
    }
}

fn settled_vectors(
    snapshots: &Vec<CognitiveTopology>,
    anchor_basis_ids: &Vec<String>,
    ids: &Vec<String>,
    base: &Vec<RegionFlowVector>,
    energies: &Vec<i64>,
    basin: i64,
) -> (r: Vec<RegionFlowVector>)
    requires
        snapshots@.len() >= 1,
        base@.len() == ids@.len(),
        energies@.len() == ids@.len(),
        forall|q: int| 0 <= q < ids@.len() ==> (#[trigger] base@[q])@ == base_flow(topology_views(snapshots@), views(anchor_basis_ids@), views(ids@)[q]),
        forall|q: int| 0 <= q < ids@.len() ==> abs_int((#[trigger] base@[q]).cohesion_trend as int) <= i64::MAX,
        forall|q: int| 0 <= q < ids@.len() ==> abs_int((#[trigger] base@[q]).size_trend as int) <= MAX_TEXTS,
        forall|q: int| 0 <= q < ids@.len() ==> energies@[q] == #[trigger] energy(topology_views(snapshots@), views(ids@)[q]),
        energies_bounded(topology_views(snapshots@), views(ids@)),
        basin == basin_energy(topology_views(snapshots@), views(anchor_basis_ids@), views(ids@)),
        1000 - 1000 * MAX_TEXTS <= basin <= 1000,
    ensures
        region_flow_views(r@) == views(ids@).map_values(
            |id: Seq<char>| settled_flow(topology_views(snapshots@), views(anchor_basis_ids@), views(ids@), id),
        ),
{
    let ghost sv = topology_views(snapshots@);
    let ghost av = views(anchor_basis_ids@);
    let ghost iv = views(ids@);
    let ghost rvs = iv.map_values(|id: Seq<char>| settled_flow(sv, av, iv, id));
    let mut out: Vec<RegionFlowVector> = Vec::new();
    let mut k: usize = 0;
    while k < ids.len()
        invariant
            sv == topology_views(snapshots@),
            av == views(anchor_basis_ids@),
            iv == views(ids@),
            sv.len() >= 1,
            rvs == iv.map_values(|id: Seq<char>| settled_flow(sv, av, iv, id)),
            base@.len() == iv.len(),
            energies@.len() == iv.len(),
            forall|q: int| 0 <= q < iv.len() ==> (#[trigger] base@[q])@ == base_flow(sv, av, iv[q]),
            forall|q: int| 0 <= q < iv.len() ==> abs_int((#[trigger] base@[q]).cohesion_trend as int) <= i64::MAX,
            forall|q: int| 0 <= q < iv.len() ==> abs_int((#[trigger] base@[q]).size_trend as int) <= MAX_TEXTS,
            forall|q: int| 0 <= q < iv.len() ==> energies@[q] == #[trigger] energy(sv, iv[q]),
            energies_bounded(sv, iv),
            basin == basin_energy(sv, av, iv),
            1000 - 1000 * MAX_TEXTS <= basin <= 1000,
            k <= iv.len(),
            region_flow_views(out@) == rvs.take(k as int),
        decreases iv.len() - k,
    {
        let ghost before = out@;
        let v = settle(snapshots, anchor_basis_ids, ids, energies, basin, &base[k], k);
        out.push(v);
        proof {
            assert(region_flow_views(out@) =~= region_flow_views(before).push(rvs[k as int]));
            assert(rvs.take(k + 1) =~= rvs.take(k as int).push(rvs[k as int]));
        }
        k = k + 1;
    }
    assert(rvs.take(rvs.len() as int) =~= rvs);
    out
}

fn concept_vectors_of(prev: &CognitiveTopology, curr: &CognitiveTopology, anchor_basis_ids: &Vec<String>) -> (r: Vec<ConceptFlowVector>)
    requires
        forall|j: int| 0 <= j < prev@.regions.len() ==> (#[trigger] prev@.regions[j]).members.len() <= MAX_TEXTS,
        forall|j: int| 0 <= j < curr@.regions.len() ==> (#[trigger] curr@.regions[j]).members.len() <= MAX_TEXTS,
    ensures
        concept_flow_views(r@) == listing(
            all_members(prev@.regions).to_set().union(all_members(curr@.regions).to_set()),
        ).map_values(|c: Seq<char>| concept_flow(prev@, curr@, views(anchor_basis_ids@), c)),
{
    let ghost av = views(anchor_basis_ids@);
    let mut members: Vec<String> = Vec::new();
    assert(views(members@) =~= Seq::<Seq<char>>::empty());
    all_members_list(&prev.regions, &mut members);
    all_members_list(&curr.regions, &mut members);
    let concepts = distinct_sorted_texts(&members);
    proof {
        lemma_concat_to_set(all_members(prev@.regions), all_members(curr@.regions));
        assert(views(members@) =~= all_members(prev@.regions) + all_members(curr@.regions));
        crate::text::lemma_listing(views(concepts@));
    }
    let ghost cv = views(concepts@);
    let ghost cvs = cv.map_values(|c: Seq<char>| concept_flow(prev@, curr@, av, c));
    let mut out: Vec<ConceptFlowVector> = Vec::new();
    let mut q: usize = 0;
    while q < concepts.len()
        invariant
            cv == views(concepts@),
            cvs == cv.map_values(|c: Seq<char>| concept_flow(prev@, curr@, av, c)),
            av == views(anchor_basis_ids@),
            forall|j: int| 0 <= j < prev@.regions.len() ==> (#[trigger] prev@.regions[j]).members.len() <= MAX_TEXTS,
            forall|j: int| 0 <= j < curr@.regions.len() ==> (#[trigger] curr@.regions[j]).members.len() <= MAX_TEXTS,
            q <= cv.len(),
            concept_flow_views(out@) == cvs.take(q as int),
        decreases cv.len() - q,
    {
        let ghost before = out@;
        let c = concept_flow_of(prev, curr, anchor_basis_ids, &concepts[q]);
        out.push(c);
        proof {
            assert(concept_flow_views(out@) =~= concept_flow_views(before).push(cvs[q as int]));
            assert(cvs.take(q + 1) =~= cvs.take(q as int).push(cvs[q as int]));
        }
        q = q + 1;
    }
    assert(cvs.take(cvs.len() as int) =~= cvs);
    out
}

/// The flow of a series of topology snapshots against the anchors. Each
/// region id seen (in increasing order) gets a vector: its cohesion and
/// size trends from first to last occurrence, its persistence (occurrences
/// per snapshot ×1000) and whether it attracts (holds an anchor in the last
/// snapshot); trends are then shaped by the energy landscape (see
/// `settled_flow`). Each concept of the last two snapshots (in increasing
/// order) gets its region size change and anchor pull. The prediction lists
/// the stable and the transient regions, the momentum (the last drift score)
/// and whether the drift is not growing. The canonical hash covers concept
/// vectors, region vectors and prediction.
pub fn compute_cognitive_flow_field(snapshots: &Vec<CognitiveTopology>, anchor_basis_ids: &Vec<String>) -> (r: Result<CognitiveFlowField, InvariantViolation>)
    requires
        flow_fits(topology_views(snapshots@), views(anchor_basis_ids@)),
    ensures
        r is Ok,
        r matches Ok(f) && f@ == flow_of(topology_views(snapshots@), views(anchor_basis_ids@)),
{
    let ghost sv = topology_views(snapshots@);
    let ghost av = views(anchor_basis_ids@);
    if snapshots.len() == 0 {
        let prediction = FlowPrediction {
            predicted_stable_region_ids: Vec::new(),
            predicted_transient_region_ids: Vec::new(),
            convergent: true,
            momentum: 0,
        };
        let none: Vec<String> = Vec::new();
        let mut empty_list = String::new();
        push_json_list(&mut empty_list, &none);
        let mut parts: Vec<String> = Vec::new();
        parts.push(empty_list);
        parts.push(prediction_json_text(&prediction));
        let mut whole = String::new();
        push_json_list(&mut whole, &parts);
        proof {
            assert(views(none@) =~= Seq::<Seq<char>>::empty());
            assert(views(prediction.predicted_stable_region_ids@) =~= Seq::<Seq<char>>::empty());
            assert(views(prediction.predicted_transient_region_ids@) =~= Seq::<Seq<char>>::empty());
            assert(views(parts@) =~= seq![json_list(Seq::empty()), prediction_json(prediction@)]);
        }
        let canonical_hash = json_hash_text(&whole);
        let f = CognitiveFlowField {
            concept_vectors: Vec::new(),
            region_vectors: Vec::new(),
            prediction,
            canonical_hash,
        };
        proof {
            assert(concept_flow_views(f.concept_vectors@) =~= Seq::<ConceptFlowView>::empty());
            assert(region_flow_views(f.region_vectors@) =~= Seq::<RegionFlowView>::empty());
        }
        return Ok(f);
    }
    let n = snapshots.len();
    let flat = flatten_regions(snapshots);
    let idl = region_id_texts(&flat);
    let ids = distinct_sorted_texts(&idl);
    let ghost iv = views(ids@);
    proof {
        crate::text::lemma_listing(iv);
        assert forall|m: int| 0 <= m < iv.len() implies ids_of(all_regions(sv)).contains(#[trigger] iv[m]) by {
            assert(iv.to_set().contains(iv[m]));
        }
    }
    let (base, energies) = base_vectors(snapshots, &flat, anchor_basis_ids, &ids);
    let basin = basin_of(snapshots, anchor_basis_ids, &ids, &base, &energies);
    let region_vectors = settled_vectors(snapshots, anchor_basis_ids, &ids, &base, &energies, basin);
    let ghost rvs = region_flow_views(region_vectors@);
    let predicted_stable_region_ids = predicted_list(&region_vectors, true);
    let predicted_transient_region_ids = predicted_list(&region_vectors, false);
    let mut concept_vectors: Vec<ConceptFlowVector> = Vec::new();
    let mut momentum: i64 = 0;
    let mut convergent = true;
    if n >= 2 {
        let prev = &snapshots[n - 2];
        let curr = &snapshots[n - 1];
        proof {
            assert(sv[n - 2] == prev@);
            assert(sv[n - 1] == curr@);
            assert forall|j: int| 0 <= j < prev@.regions.len() implies (#[trigger] prev@.regions[j]).members.len() <= MAX_TEXTS by {
                assert(sv[n - 2].regions[j] == prev@.regions[j]);
            }
            assert forall|j: int| 0 <= j < curr@.regions.len() implies (#[trigger] curr@.regions[j]).members.len() <= MAX_TEXTS by {
                assert(sv[n - 1].regions[j] == curr@.regions[j]);
            }
        }
        concept_vectors = concept_vectors_of(prev, curr, anchor_basis_ids);
        let drift = compare_topologies(prev, curr);
        momentum = drift.drift_score;
        if n >= 3 {
            let earlier = compare_topologies(&snapshots[n - 3], prev);
            convergent = drift.drift_score <= earlier.drift_score;
        } else {
            convergent = momentum == 0;
        }
    } else {
        proof {
            assert(concept_flow_views(concept_vectors@) =~= Seq::<ConceptFlowView>::empty());
        }
    }
    let prediction = FlowPrediction {
        predicted_stable_region_ids,
        predicted_transient_region_ids,
        convergent,
        momentum,
    };
    let mut parts: Vec<String> = Vec::new();
    parts.push(concept_flows_json_text(&concept_vectors));
    parts.push(region_flows_json_text(&region_vectors));
    parts.push(prediction_json_text(&prediction));
    let mut whole = String::new();
    push_json_list(&mut whole, &parts);
    let ghost cvs_all = concept_flow_views(concept_vectors@);
    proof {
        assert(views(parts@) =~= seq![
            json_list(cvs_all.map_values(|c: ConceptFlowView| concept_flow_json(c))),
            json_list(rvs.map_values(|r: RegionFlowView| region_flow_json(r))),
            prediction_json(prediction@),
        ]);
    }
    let canonical_hash = json_hash_text(&whole);
    Ok(CognitiveFlowField { concept_vectors, region_vectors, prediction, canonical_hash })
}


// ── laws ─────────────────────────────────────────────────────────────────────

/// Every region vector is predicted either stable or transient: the two
/// lists together are as long as the region vectors.
pub proof fn lemma_prediction_partitions(rvs: Seq<RegionFlowView>)
    ensures
        predicted_ids(rvs, true).len() + predicted_ids(rvs, false).len() == rvs.len(),
    decreases rvs.len(),
{
    if rvs.len() > 0 {
        lemma_prediction_partitions(rvs.drop_last());
    }
}

} // verus!
