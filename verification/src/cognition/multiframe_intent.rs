//! Cognitive intent: goals formed from the wells of a potential field, the
//! preference that goals add to each gradient, and the move that intent
//! selects.
use vstd::prelude::*;
use crate::cognition::multiframe_energy::{
    clamp_int, max_int, potential_at, CognitivePotentialField, EnergyView, GradientView, PotentialView,
};
use crate::cognition::multiframe_topology::MAX_TEXTS;
use crate::geom::invariants::InvariantViolation;
use crate::json::{json_hash, json_hash_text, json_list, json_str, json_strs, push_json_list, push_json_str,
    push_json_strs};
use crate::text::{dec_int, distinct_sorted_texts, keyed_sorted, less_than, listing, ordered, push_i64, same_text,
    text, text_lt, views};

verus! {

// ── types ────────────────────────────────────────────────────────────────────

/// A region that intent wants to reach.
#[derive(Debug, Clone, PartialEq, Eq)]
pub struct GoalAttractor {
    pub region_id: String,
    pub goal_weight: i64,
    pub preferred_energy_ceiling: i64,
    pub persistence_preference: i64,
}

/// The goals of a potential field and the regions to prefer and avoid.
#[derive(Debug, Clone, PartialEq, Eq)]
pub struct IntentField {
    pub goal_attractors: Vec<GoalAttractor>,
    pub preferred_regions: Vec<String>,
    pub avoidance_regions: Vec<String>,
    pub canonical_hash: String,
}

/// A gradient with the pull that goals add to it.
#[derive(Debug, Clone, PartialEq, Eq)]
pub struct PreferenceGradient {
    pub source_region: String,
    pub target_region: String,
    pub energy_gradient: i64,
    pub goal_pull: i64,
    pub traversal_cost: i64,
    pub preference_score: i64,
}

/// How well a chosen move serves the goals.
#[derive(Debug, Clone, Copy, PartialEq, Eq, Structural)]
pub struct GoalStabilityMetric {
    pub goal_alignment: i64,
    pub trajectory_efficiency: i64,
    pub stability_projection: i64,
    pub intent_confidence: i64,
}

/// The move that intent selects.
#[derive(Debug, Clone, PartialEq, Eq)]
pub struct IntentDrivenTrajectory {
    pub selected_path: Vec<String>,
    pub avoided_regions: Vec<String>,
    pub projected_energy: i64,
    pub goal_stability: GoalStabilityMetric,
    pub canonical_hash: String,
}

pub struct GoalView {
    pub region_id: Seq<char>,
    pub goal_weight: i64,
    pub preferred_energy_ceiling: i64,
    pub persistence_preference: i64,
}

pub struct IntentView {
    pub goal_attractors: Seq<GoalView>,
    pub preferred_regions: Seq<Seq<char>>,
    pub avoidance_regions: Seq<Seq<char>>,
    pub canonical_hash: Seq<char>,
}

pub struct PreferenceView {
    pub source_region: Seq<char>,
    pub target_region: Seq<char>,
    pub energy_gradient: i64,
    pub goal_pull: i64,
    pub traversal_cost: i64,
    pub preference_score: i64,
}

pub struct IntentTrajectoryView {
    pub selected_path: Seq<Seq<char>>,
    pub avoided_regions: Seq<Seq<char>>,
    pub projected_energy: i64,
    pub goal_stability: GoalStabilityMetric,
    pub canonical_hash: Seq<char>,
}

impl View for GoalAttractor {
    type V = GoalView;

    open spec fn view(&self) -> GoalView {
        GoalView {
            region_id: self.region_id@,
            goal_weight: self.goal_weight,
            preferred_energy_ceiling: self.preferred_energy_ceiling,
            persistence_preference: self.persistence_preference,
        }
    }
}

pub open spec fn goal_views(s: Seq<GoalAttractor>) -> Seq<GoalView> {
    s.map_values(|g: GoalAttractor| g@)
}

impl View for IntentField {
    type V = IntentView;

    open spec fn view(&self) -> IntentView {
        IntentView {
            goal_attractors: goal_views(self.goal_attractors@),
            preferred_regions: views(self.preferred_regions@),
            avoidance_regions: views(self.avoidance_regions@),
            canonical_hash: self.canonical_hash@,
        }
    }
}

impl View for PreferenceGradient {
    type V = PreferenceView;

    open spec fn view(&self) -> PreferenceView {
        PreferenceView {
            source_region: self.source_region@,
            target_region: self.target_region@,
            energy_gradient: self.energy_gradient,
            goal_pull: self.goal_pull,
            traversal_cost: self.traversal_cost,
            preference_score: self.preference_score,
        }
    }
}

pub open spec fn preference_views(s: Seq<PreferenceGradient>) -> Seq<PreferenceView> {
    s.map_values(|p: PreferenceGradient| p@)
}

impl View for IntentDrivenTrajectory {
    type V = IntentTrajectoryView;

    open spec fn view(&self) -> IntentTrajectoryView {
        IntentTrajectoryView {
            selected_path: views(self.selected_path@),
            avoided_regions: views(self.avoided_regions@),
            projected_energy: self.projected_energy,
            goal_stability: self.goal_stability,
            canonical_hash: self.canonical_hash@,
        }
    }
}

// ── JSON layouts ─────────────────────────────────────────────────────────────

pub open spec fn goal_json(g: GoalView) -> Seq<char> {
    "{\"region_id\":"@ + json_str(g.region_id) + ",\"goal_weight\":"@ + dec_int(g.goal_weight as int)
        + ",\"preferred_energy_ceiling\":"@ + dec_int(g.preferred_energy_ceiling as int)
        + ",\"persistence_preference\":"@ + dec_int(g.persistence_preference as int) + "}"@
}

pub open spec fn stability_json(m: GoalStabilityMetric) -> Seq<char> {
    "{\"goal_alignment\":"@ + dec_int(m.goal_alignment as int) + ",\"trajectory_efficiency\":"@ + dec_int(
        m.trajectory_efficiency as int,
    ) + ",\"stability_projection\":"@ + dec_int(m.stability_projection as int) + ",\"intent_confidence\":"@
        + dec_int(m.intent_confidence as int) + "}"@
}

fn goal_json_text(g: &GoalAttractor) -> (r: String)
    ensures
        r@ == goal_json(g@),
{
    let mut out = String::new();
    out.append("{\"region_id\":");
    push_json_str(&mut out, g.region_id.as_str());
    out.append(",\"goal_weight\":");
    push_i64(&mut out, g.goal_weight);
    out.append(",\"preferred_energy_ceiling\":");
    push_i64(&mut out, g.preferred_energy_ceiling);
    out.append(",\"persistence_preference\":");
    push_i64(&mut out, g.persistence_preference);
    out.append("}");
    out
}

fn stability_json_text(m: &GoalStabilityMetric) -> (r: String)
    ensures
        r@ == stability_json(*m),
{
    let mut out = String::new();
    out.append("{\"goal_alignment\":");
    push_i64(&mut out, m.goal_alignment);
    out.append(",\"trajectory_efficiency\":");
    push_i64(&mut out, m.trajectory_efficiency);
    out.append(",\"stability_projection\":");
    push_i64(&mut out, m.stability_projection);
    out.append(",\"intent_confidence\":");
    push_i64(&mut out, m.intent_confidence);
    out.append("}");
    out
}

pub fn goals_json_text(v: &Vec<GoalAttractor>) -> (r: String)
    ensures
        r@ == json_list(goal_views(v@).map_values(|g: GoalView| goal_json(g))),
{
    let ghost items = goal_views(v@).map_values(|g: GoalView| goal_json(g));
    let mut parts: Vec<String> = Vec::new();
    let mut i: usize = 0;
    while i < v.len()
        invariant
            i <= v@.len(),
            items == goal_views(v@).map_values(|g: GoalView| goal_json(g)),
            views(parts@) == items.take(i as int),
        decreases v@.len() - i,
    {
        let ghost before = parts@;
        let piece = goal_json_text(&v[i]);
        parts.push(piece);
        proof {
            assert(views(parts@) =~= views(before).push(items[i as int]));
        }
        i = i + 1;
        assert(views(parts@) =~= items.take(i as int));
    }
    assert(items.take(v@.len() as int) =~= items);
    let mut out = String::new();
    push_json_list(&mut out, &parts);
    out
}


// ── the intent field ─────────────────────────────────────────────────────────

pub open spec fn by_goal_region() -> spec_fn(GoalView) -> Seq<char> {
    |g: GoalView| g.region_id
}

/// The goals that the wells of `es` within `ceiling` form, in their order:
/// weight the attraction plus `strength`, persistence preference half the
/// well depth (at least 100).
pub open spec fn goal_candidates(es: Seq<EnergyView>, ceiling: int, strength: int) -> Seq<GoalView>
    decreases es.len(),
{
    if es.len() == 0 {
        Seq::empty()
    } else {
        let rest = goal_candidates(es.drop_last(), ceiling, strength);
        let e = es.last();
        if e.well_depth > 0 && e.potential <= ceiling {
            rest.push(
                GoalView {
                    region_id: e.region_id,
                    goal_weight: (e.attraction_strength + strength) as i64,
                    preferred_energy_ceiling: ceiling as i64,
                    persistence_preference: max_int(e.well_depth / 2, 100) as i64,
                },
            )
        } else {
            rest
        }
    }
}

/// The regions of `es` to avoid: at least 400 above the minimum, or
/// barriers.
pub open spec fn avoid_candidates(es: Seq<EnergyView>, min: int) -> Seq<Seq<char>>
    decreases es.len(),
{
    if es.len() == 0 {
        Seq::empty()
    } else {
        let rest = avoid_candidates(es.drop_last(), min);
        let e = es.last();
        if e.potential >= min + 400 || e.well_depth < 0 {
            rest.push(e.region_id)
        } else {
            rest
        }
    }
}

pub open spec fn goal_ids(gs: Seq<GoalView>) -> Seq<Seq<char>> {
    gs.map_values(|g: GoalView| g.region_id)
}

/// The intent of a potential field: goals at the wells within 150 of the
/// global minimum (by region id), each weighted by its attraction plus ten
/// per anchor (at least ten); the goal regions to prefer; the regions to
/// avoid (at least 400 above the minimum, or barriers) that are not goals.
pub open spec fn intent_field_of(pf: PotentialView, anchors: Seq<Seq<char>>) -> IntentView {
    let es = pf.stability_energies;
    if es.len() == 0 {
        IntentView {
            goal_attractors: Seq::empty(),
            preferred_regions: Seq::empty(),
            avoidance_regions: Seq::empty(),
            canonical_hash: json_hash(json_list(seq![json_list(Seq::empty()), json_strs(Seq::empty())])),
        }
    } else {
        let min = pf.global_minimum_energy as int;
        let strength = max_int(anchors.len() as int, 1) * 10;
        let goals = keyed_sorted(goal_candidates(es, min + 150, strength), by_goal_region());
        let pset = goal_ids(goals).to_set();
        let preferred = listing(pset);
        let avoid = listing(avoid_candidates(es, min).to_set().difference(pset));
        IntentView {
            goal_attractors: goals,
            preferred_regions: preferred,
            avoidance_regions: avoid,
            canonical_hash: json_hash(
                json_list(
                    seq![
                        json_list(goals.map_values(|g: GoalView| goal_json(g))),
                        json_strs(preferred),
                        json_strs(avoid),
                        json_strs(anchors),
                    ],
                ),
            ),
        }
    }
}

/// Forming the intent overflows nowhere.
pub open spec fn intent_fits(pf: PotentialView, anchors: Seq<Seq<char>>) -> bool {
    let es = pf.stability_energies;
    let min = pf.global_minimum_energy as int;
    let strength = max_int(anchors.len() as int, 1) * 10;
    &&& anchors.len() <= MAX_TEXTS
    &&& es.len() > 0 ==> min + 400 <= i64::MAX
    &&& forall|k: int|
        0 <= k < es.len() && (#[trigger] es[k]).well_depth > 0 && es[k].potential <= min + 150 ==> es[k].attraction_strength
            + strength <= i64::MAX
}

pub open spec fn energy_list_views(s: Seq<crate::cognition::multiframe_energy::StabilityEnergy>) -> Seq<EnergyView> {
    crate::cognition::multiframe_energy::energy_views(s)
}

/// The intent of a potential field (see `intent_field_of`), with a
/// canonical hash over goals, preferred and avoided regions and anchors.
pub fn compute_intent_field(potential_field: &CognitivePotentialField, anchor_basis_ids: &Vec<String>) -> (r: Result<IntentField, InvariantViolation>)
    requires
        intent_fits(potential_field@, views(anchor_basis_ids@)),
    ensures
        r is Ok,
        r matches Ok(f) && f@ == intent_field_of(potential_field@, views(anchor_basis_ids@)),
        r matches Ok(f) && forall|i: int, j: int|
            0 <= i < f@.preferred_regions.len() && 0 <= j < f@.avoidance_regions.len() ==> #[trigger] f@.preferred_regions[i]
                != #[trigger] f@.avoidance_regions[j],
{
    let ghost pf = potential_field@;
    let ghost es = pf.stability_energies;
    let ghost av = views(anchor_basis_ids@);
    let energies = &potential_field.stability_energies;
    if energies.len() == 0 {
        let none: Vec<String> = Vec::new();
        let mut empty_list = String::new();
        push_json_list(&mut empty_list, &none);
        let mut parts: Vec<String> = Vec::new();
        parts.push(empty_list);
        parts.push(crate::json::json_strs_text(&none));
        let mut whole = String::new();
        push_json_list(&mut whole, &parts);
        proof {
            assert(views(none@) =~= Seq::<Seq<char>>::empty());
            assert(views(parts@) =~= seq![json_list(Seq::empty()), json_strs(Seq::empty())]);
        }
        let f = IntentField {
            goal_attractors: Vec::new(),
            preferred_regions: Vec::new(),
            avoidance_regions: Vec::new(),
            canonical_hash: json_hash_text(&whole),
        };
        proof {
            assert(goal_views(f.goal_attractors@) =~= Seq::<GoalView>::empty());
            assert(views(f.preferred_regions@) =~= Seq::<Seq<char>>::empty());
            assert(views(f.avoidance_regions@) =~= Seq::<Seq<char>>::empty());
        }
        return Ok(f);
    }
    let min_energy = potential_field.global_minimum_energy;
    let ceiling = min_energy + 150;
    let strength: i64 = if anchor_basis_ids.len() > 1 {
        (anchor_basis_ids.len() as i64) * 10
    } else {
        10
    };
    let mut goals: Vec<GoalAttractor> = Vec::new();
    let mut avoid_raw: Vec<String> = Vec::new();
    let mut i: usize = 0;
    while i < energies.len()
        invariant
            pf == potential_field@,
            es == pf.stability_energies,
            av == views(anchor_basis_ids@),
            energies@.len() == es.len(),
            es == energy_list_views(energies@),
            intent_fits(pf, av),
            min_energy == pf.global_minimum_energy,
            ceiling == min_energy + 150,
            strength == max_int(av.len() as int, 1) * 10,
            i <= es.len(),
            goal_views(goals@) == keyed_sorted(goal_candidates(es.take(i as int), ceiling as int, strength as int), by_goal_region()),
            views(avoid_raw@) == avoid_candidates(es.take(i as int), min_energy as int),
        decreases es.len() - i,
    {
        let e = &energies[i];
        proof {
            assert(es.take(i + 1).drop_last() =~= es.take(i as int));
            assert(es.take(i + 1).last() == es[i as int]);
            assert(es[i as int] == e@);
        }
        if e.well_depth > 0 && e.potential <= ceiling {
            let g = GoalAttractor {
                region_id: e.region_id.clone(),
                goal_weight: e.attraction_strength + strength,
                preferred_energy_ceiling: ceiling,
                persistence_preference: if e.well_depth / 2 > 100 {
                    e.well_depth / 2
                } else {
                    100
                },
            };
            let mut p: usize = 0;
            while p < goals.len() && !less_than(g.region_id.as_str(), goals[p].region_id.as_str())
                invariant
                    p <= goals@.len(),
                    forall|k: int| 0 <= k < p ==> !text_lt(g@.region_id, #[trigger] goal_views(goals@)[k].region_id),
                decreases goals@.len() - p,
            {
                p = p + 1;
            }
            let ghost before = goal_views(goals@);
            proof {
                crate::text::lemma_insert_keyed_at(before, g@, by_goal_region(), p as int);
                let cands = goal_candidates(es.take(i as int), ceiling as int, strength as int);
                assert(cands.push(g@).drop_last() =~= cands);
            }
            goals.insert(p, g);
            proof {
                assert(goal_views(goals@) =~= before.subrange(0, p as int) + seq![g@] + before.subrange(
                    p as int,
                    before.len() as int,
                ));
            }
        }
        if e.potential >= min_energy + 400 || e.well_depth < 0 {
            let ghost before = avoid_raw@;
            avoid_raw.push(e.region_id.clone());
            proof {
                assert(views(avoid_raw@) =~= views(before).push(e@.region_id));
            }
        }
        i = i + 1;
    }
    assert(es.take(es.len() as int) =~= es);
    let mut goal_id_list: Vec<String> = Vec::new();
    let mut k: usize = 0;
    while k < goals.len()
        invariant
            k <= goals@.len(),
            views(goal_id_list@) == goal_ids(goal_views(goals@)).take(k as int),
        decreases goals@.len() - k,
    {
        let ghost before = goal_id_list@;
        goal_id_list.push(goals[k].region_id.clone());
        proof {
            assert(views(goal_id_list@) =~= views(before).push(goal_views(goals@)[k as int].region_id));
            assert(goal_ids(goal_views(goals@)).take(k + 1) =~= goal_ids(goal_views(goals@)).take(k as int).push(
                goal_ids(goal_views(goals@))[k as int],
            ));
        }
        k = k + 1;
    }
    assert(goal_ids(goal_views(goals@)).take(goals@.len() as int) =~= goal_ids(goal_views(goals@)));
    let preferred_regions = distinct_sorted_texts(&goal_id_list);
    let avoid_sorted = distinct_sorted_texts(&avoid_raw);
    let avoidance_regions = crate::text::texts_not_in(&avoid_sorted, &goal_id_list);
    proof {
        crate::text::lemma_listing(views(preferred_regions@));
        crate::text::lemma_listing(views(avoidance_regions@));
        let pv = views(preferred_regions@);
        let avv = views(avoidance_regions@);
        assert forall|a: int, b: int| 0 <= a < pv.len() && 0 <= b < avv.len() implies #[trigger] pv[a] != #[trigger] avv[b] by {
            assert(pv.to_set().contains(pv[a]));
            assert(avv.to_set().contains(avv[b]));
        }
    }
    let mut parts: Vec<String> = Vec::new();
    parts.push(goals_json_text(&goals));
    parts.push(crate::json::json_strs_text(&preferred_regions));
    parts.push(crate::json::json_strs_text(&avoidance_regions));
    parts.push(crate::json::json_strs_text(anchor_basis_ids));
    let mut whole = String::new();
    push_json_list(&mut whole, &parts);
    let ghost gv = goal_views(goals@);
    proof {
        assert(views(parts@) =~= seq![
            json_list(gv.map_values(|g: GoalView| goal_json(g))),
            json_strs(views(preferred_regions@)),
            json_strs(views(avoidance_regions@)),
            json_strs(av),
        ]);
    }
    let canonical_hash = json_hash_text(&whole);
    Ok(IntentField { goal_attractors: goals, preferred_regions, avoidance_regions, canonical_hash })
}


// ── preference gradients ─────────────────────────────────────────────────────

/// A gradient with the goals' pull: +250 toward a preferred region, −300
/// toward an avoided one.
pub open spec fn preference_of(g: GradientView, preferred: Seq<Seq<char>>, avoid: Seq<Seq<char>>) -> PreferenceView {
    let pull: int = (if preferred.contains(g.target_region) { 250int } else { 0int }) + (if avoid.contains(
        g.target_region,
    ) { -300int } else { 0int });
    PreferenceView {
        source_region: g.source_region,
        target_region: g.target_region,
        energy_gradient: g.gradient,
        goal_pull: pull as i64,
        traversal_cost: g.traversal_cost,
        preference_score: (g.gradient + pull) as i64,
    }
}

/// Higher score first, then source, then target in text order.
pub open spec fn preference_first() -> spec_fn(PreferenceView, PreferenceView) -> bool {
    |a: PreferenceView, b: PreferenceView|
        a.preference_score > b.preference_score || (a.preference_score == b.preference_score && (text_lt(
            a.source_region,
            b.source_region,
        ) || (a.source_region == b.source_region && text_lt(a.target_region, b.target_region))))
}

/// The preference gradients of a potential field under an intent.
pub open spec fn preferences_of(pf: PotentialView, intent: IntentView) -> Seq<PreferenceView> {
    ordered(
        pf.gradients.map_values(
            |g: GradientView| preference_of(g, intent.preferred_regions, intent.avoidance_regions),
        ),
        preference_first(),
    )
}

/// Adding the pull to every gradient overflows nowhere.
pub open spec fn preferences_fit(pf: PotentialView) -> bool {
    forall|k: int|
        0 <= k < pf.gradients.len() ==> i64::MIN + 300 <= (#[trigger] pf.gradients[k]).gradient <= i64::MAX - 250
}

fn preference_entry(g: &crate::cognition::multiframe_energy::EnergyGradient, intent: &IntentField) -> (p: PreferenceGradient)
    requires
        i64::MIN + 300 <= g.gradient <= i64::MAX - 250,
    ensures
        p@ == preference_of(g@, intent@.preferred_regions, intent@.avoidance_regions),
{
    let mut goal_pull: i64 = 0;
    if crate::text::has_text(&intent.preferred_regions, g.target_region.as_str()) {
        goal_pull = goal_pull + 250;
    }
    if crate::text::has_text(&intent.avoidance_regions, g.target_region.as_str()) {
        goal_pull = goal_pull - 300;
    }
    PreferenceGradient {
        source_region: g.source_region.clone(),
        target_region: g.target_region.clone(),
        energy_gradient: g.gradient,
        goal_pull,
        traversal_cost: g.traversal_cost,
        preference_score: g.gradient + goal_pull,
    }
}

fn preference_precedes(a: &PreferenceGradient, b: &PreferenceGradient) -> (r: bool)
    ensures
        r == (preference_first())(a@, b@),
{
    if a.preference_score > b.preference_score {
        return true;
    }
    if a.preference_score < b.preference_score {
        return false;
    }
    if less_than(a.source_region.as_str(), b.source_region.as_str()) {
        return true;
    }
    if !same_text(&a.source_region, &b.source_region) {
        return false;
    }
    less_than(a.target_region.as_str(), b.target_region.as_str())
}

/// The gradients of a potential field with the pull of an intent's goals,
/// ordered by score (highest first), then by source and target region.
pub fn compute_preference_gradients(potential_field: &CognitivePotentialField, intent_field: &IntentField) -> (r: Result<Vec<PreferenceGradient>, InvariantViolation>)
    requires
        preferences_fit(potential_field@),
    ensures
        r is Ok,
        r matches Ok(v) && preference_views(v@) == preferences_of(potential_field@, intent_field@),
{
    let ghost gs = potential_field@.gradients;
    let ghost all = gs.map_values(
        |g: GradientView| preference_of(g, intent_field@.preferred_regions, intent_field@.avoidance_regions),
    );
    let mut out: Vec<PreferenceGradient> = Vec::new();
    let mut i: usize = 0;
    while i < potential_field.gradients.len()
        invariant
            gs == potential_field@.gradients,
            preferences_fit(potential_field@),
            all == gs.map_values(
                |g: GradientView| preference_of(g, intent_field@.preferred_regions, intent_field@.avoidance_regions),
            ),
            i <= gs.len(),
            preference_views(out@) == ordered(all.take(i as int), preference_first()),
        decreases gs.len() - i,
    {
        assert(i64::MIN + 300 <= gs[i as int].gradient <= i64::MAX - 250);
        let x = preference_entry(&potential_field.gradients[i], intent_field);
        let mut p: usize = 0;
        while p < out.len() && !preference_precedes(&x, &out[p])
            invariant
                p <= out@.len(),
                forall|k: int| 0 <= k < p ==> !(preference_first())(x@, #[trigger] preference_views(out@)[k]),
            decreases out@.len() - p,
        {
            p = p + 1;
        }
        let ghost before = preference_views(out@);
        proof {
            crate::text::lemma_insert_ordered_at(before, x@, preference_first(), p as int);
            let tk = all.take(i + 1);
            assert(tk.drop_last() =~= all.take(i as int));
            assert(tk.last() == x@);
        }
        out.insert(p, x);
        proof {
            assert(preference_views(out@) =~= before.subrange(0, p as int) + seq![all[i as int]] + before.subrange(
                p as int,
                before.len() as int,
            ));
        }
        i = i + 1;
    }
    assert(all.take(all.len() as int) =~= all);
    Ok(out)
}


// ── goal-directed moves ──────────────────────────────────────────────────────

/// The positive preference gradients out of `cur` that do not lead into an
/// avoided region, in order.
pub open spec fn intent_candidates(ps: Seq<PreferenceView>, cur: Seq<char>, avoid: Seq<Seq<char>>) -> Seq<PreferenceView>
    decreases ps.len(),
{
    if ps.len() == 0 {
        Seq::empty()
    } else {
        let rest = intent_candidates(ps.drop_last(), cur, avoid);
        let p = ps.last();
        if p.source_region == cur && p.preference_score > 0 && !avoid.contains(p.target_region) {
            rest.push(p)
        } else {
            rest
        }
    }
}

/// Rust's truncating division.
pub open spec fn quot(num: int, den: int) -> int {
    if den > 0 {
        crate::cognition::phase61_structural_recovery::trunc_div(num, den)
    } else {
        -crate::cognition::phase61_structural_recovery::trunc_div(num, -den)
    }
}

/// Score per unit of cost, ×1000.
pub open spec fn preference_rate(p: PreferenceView) -> int {
    quot(p.preference_score * 1000, p.traversal_cost + 1)
}

/// The last candidate with the best rate.
pub open spec fn best_preference(cs: Seq<PreferenceView>) -> PreferenceView
    decreases cs.len(),
{
    if cs.len() <= 1 {
        cs[0]
    } else {
        let b = best_preference(cs.drop_last());
        if preference_rate(cs.last()) >= preference_rate(b) { cs.last() } else { b }
    }
}

/// The move that intent selects from `cur`: the best-rated candidate (see
/// `intent_candidates`), or staying put without one; with how well it
/// aligns with the goals, how efficient it is and how stable its outcome
/// looks (all within 0..=1000), and their mean as confidence.
pub open spec fn intent_trajectory_of(pf: PotentialView, intent: IntentView, cur: Seq<char>) -> IntentTrajectoryView {
    let cs = intent_candidates(preferences_of(pf, intent), cur, intent.avoidance_regions);
    let es = pf.stability_energies;
    let load = intent.avoidance_regions.len() * 200;
    let (path, projected, align, eff, stab) = if cs.len() > 0 {
        let b = best_preference(cs);
        let te = potential_at(es, b.target_region, 500);
        let se = potential_at(es, b.source_region, 500);
        (
            seq![cur, b.target_region],
            te,
            if intent.preferred_regions.contains(b.target_region) { 1000int } else { 500int },
            clamp_int(preference_rate(b), 0, 1000),
            clamp_int(1000 - te - quot(se + load, 2) + b.goal_pull, 0, 1000),
        )
    } else {
        let ce = potential_at(es, cur, 500);
        let preferred = intent.preferred_regions.contains(cur);
        (
            seq![cur],
            ce,
            if preferred { 950int } else { 500int },
            1000int,
            clamp_int((if preferred { 900int } else { 500int }) - quot(ce + load, 3), 0, 1000),
        )
    };
    let metric = GoalStabilityMetric {
        goal_alignment: align as i64,
        trajectory_efficiency: eff as i64,
        stability_projection: stab as i64,
        intent_confidence: clamp_int((align + eff + stab) / 3, 0, 1000) as i64,
    };
    IntentTrajectoryView {
        selected_path: path,
        avoided_regions: intent.avoidance_regions,
        projected_energy: projected as i64,
        goal_stability: metric,
        canonical_hash: json_hash(
            json_list(
                seq![json_strs(path), json_str(intent.canonical_hash), dec_int(projected), stability_json(metric)],
            ),
        ),
    }
}

/// The rate of a candidate is computed without overflow or division by zero.
pub open spec fn rate_fits(p: PreferenceView) -> bool {
    &&& p.preference_score * 1000 <= i64::MAX
    &&& p.traversal_cost + 1 <= i64::MAX
    &&& p.traversal_cost + 1 != 0
}

/// Selecting the move overflows nowhere and divides by no zero.
pub open spec fn intent_trajectory_fits(pf: PotentialView, intent: IntentView, cur: Seq<char>) -> bool {
    let cs = intent_candidates(preferences_of(pf, intent), cur, intent.avoidance_regions);
    let es = pf.stability_energies;
    let load = intent.avoidance_regions.len() * 200;
    &&& preferences_fit(pf)
    &&& intent.avoidance_regions.len() <= MAX_TEXTS
    &&& forall|k: int| 0 <= k < cs.len() ==> rate_fits(#[trigger] cs[k])
    &&& cs.len() > 0 ==> {
        let b = best_preference(cs);
        let te = potential_at(es, b.target_region, 500);
        let se = potential_at(es, b.source_region, 500);
        &&& se + load <= i64::MAX
        &&& i64::MIN <= 1000 - te <= i64::MAX
        &&& i64::MIN <= 1000 - te - quot(se + load, 2) <= i64::MAX
        &&& i64::MIN <= 1000 - te - quot(se + load, 2) + b.goal_pull <= i64::MAX
    }
    &&& cs.len() == 0 ==> {
        let ce = potential_at(es, cur, 500);
        &&& ce + load <= i64::MAX
    }
}

fn rate_of(p: &PreferenceGradient) -> (r: i64)
    requires
        p.preference_score > 0,
        rate_fits(p@),
    ensures
        r == preference_rate(p@),
{
    let num = p.preference_score * 1000;
    let den = p.traversal_cost + 1;
    if den > 0 {
        num / den
    } else {
        -(num / (-den))
    }
}

fn intent_potential(es: &Vec<crate::cognition::multiframe_energy::StabilityEnergy>, region: &String) -> (v: i64)
    ensures
        v == potential_at(crate::cognition::multiframe_energy::energy_views(es@), region@, 500),
{
    let ghost ev = crate::cognition::multiframe_energy::energy_views(es@);
    let mut found: Option<i64> = None;
    let mut j: usize = 0;
    while j < es.len()
        invariant
            ev == crate::cognition::multiframe_energy::energy_views(es@),
            j <= ev.len(),
            match found {
                Some(v) => potential_at(ev.take(j as int), region@, 500) == v,
                None => potential_at(ev.take(j as int), region@, 500) == 500,
            },
        decreases ev.len() - j,
    {
        proof {
            assert(ev.take(j + 1).drop_last() =~= ev.take(j as int));
            assert(ev.take(j + 1).last() == ev[j as int]);
        }
        if same_text(&es[j].region_id, region) {
            found = Some(es[j].potential);
        }
        j = j + 1;
    }
    assert(ev.take(ev.len() as int) =~= ev);
    match found {
        Some(v) => v,
        None => 500,
    }
}

fn clamp_thousand(x: i64) -> (r: i64)
    ensures
        r == clamp_int(x as int, 0, 1000),
{
    if x < 0 {
        0
    } else if x > 1000 {
        1000
    } else {
        x
    }
}

/// The move that intent selects from `current_region` (see
/// `intent_trajectory_of`), with a canonical hash over the path, the
/// intent's hash, the projected energy and the stability metric.
pub fn select_goal_directed_trajectory(
    potential_field: &CognitivePotentialField,
    intent_field: &IntentField,
    current_region: &str,
) -> (r: Result<IntentDrivenTrajectory, InvariantViolation>)
    requires
        intent_trajectory_fits(potential_field@, intent_field@, current_region@),
    ensures
        r is Ok,
        r matches Ok(t) && t@ == intent_trajectory_of(potential_field@, intent_field@, current_region@),
{
    let ghost pf = potential_field@;
    let ghost iv = intent_field@;
    let prefs = match compute_preference_gradients(potential_field, intent_field) {
        Ok(v) => v,
        Err(e) => {
            return Err(e);
        },
    };
    let ghost ps = preference_views(prefs@);
    let cur = text(current_region);
    let mut found = false;
    let mut best: usize = 0;
    let mut best_rate: i64 = 0;
    let mut i: usize = 0;
    while i < prefs.len()
        invariant
            ps == preference_views(prefs@),
            ps == preferences_of(pf, iv),
            cur@ == current_region@,
            intent_trajectory_fits(pf, iv, current_region@),
            iv == intent_field@,
            i <= ps.len(),
            found == (intent_candidates(ps.take(i as int), cur@, iv.avoidance_regions).len() > 0),
            found ==> best < i && ps[best as int] == best_preference(intent_candidates(ps.take(i as int), cur@, iv.avoidance_regions)),
            found ==> best_rate == preference_rate(ps[best as int]),
        decreases ps.len() - i,
    {
        let p = &prefs[i];
        let ghost cs_before = intent_candidates(ps.take(i as int), cur@, iv.avoidance_regions);
        proof {
            assert(ps.take(i + 1).drop_last() =~= ps.take(i as int));
            assert(ps.take(i + 1).last() == ps[i as int]);
            lemma_candidates_prefix(ps, cur@, iv.avoidance_regions, i as int);
        }
        if same_text(&p.source_region, &cur) && p.preference_score > 0 && !crate::text::has_text(
            &intent_field.avoidance_regions,
            p.target_region.as_str(),
        ) {
            proof {
                let cs_all = intent_candidates(ps, cur@, iv.avoidance_regions);
                let cs_now = intent_candidates(ps.take(i + 1), cur@, iv.avoidance_regions);
                assert(cs_now == cs_before.push(ps[i as int]));
                assert(cs_now[cs_now.len() - 1] == ps[i as int]);
                lemma_candidates_grow(ps, cur@, iv.avoidance_regions, i + 1);
                assert(cs_all[cs_now.len() - 1] == cs_now[cs_now.len() - 1]);
                assert(cs_all.contains(cs_now[cs_now.len() - 1]));
                let m = choose|m: int| 0 <= m < cs_all.len() && cs_all[m] == ps[i as int];
                assert(rate_fits(cs_all[m]));
                assert(cs_now.drop_last() =~= cs_before);
            }
            let rate = rate_of(p);
            if !found || rate >= best_rate {
                best = i;
                best_rate = rate;
            }
            found = true;
        }
        i = i + 1;
    }
    assert(ps.take(ps.len() as int) =~= ps);
    let es = &potential_field.stability_energies;
    let load = (intent_field.avoidance_regions.len() as i64) * 200;
    let mut path: Vec<String> = Vec::new();
    path.push(text(current_region));
    let projected_energy: i64;
    let goal_alignment: i64;
    let trajectory_efficiency: i64;
    let stability_projection: i64;
    if found {
        let b = &prefs[best];
        let te = intent_potential(es, &b.target_region);
        let se = intent_potential(es, &b.source_region);
        goal_alignment = if crate::text::has_text(&intent_field.preferred_regions, b.target_region.as_str()) {
            1000
        } else {
            500
        };
        trajectory_efficiency = clamp_thousand(best_rate);
        let burden = se + load;
        stability_projection = clamp_thousand(1000 - te - burden / 2 + b.goal_pull);
        projected_energy = te;
        path.push(b.target_region.clone());
    } else {
        let ce = intent_potential(es, &cur);
        let preferred = crate::text::has_text(&intent_field.preferred_regions, current_region);
        let burden = ce + load;
        goal_alignment = if preferred {
            950
        } else {
            500
        };
        trajectory_efficiency = 1000;
        stability_projection = clamp_thousand((if preferred {
            900
        } else {
            500
        }) - burden / 3);
        projected_energy = ce;
    }
    let goal_stability = GoalStabilityMetric {
        goal_alignment,
        trajectory_efficiency,
        stability_projection,
        intent_confidence: clamp_thousand((goal_alignment + trajectory_efficiency + stability_projection) / 3),
    };
    let mut parts: Vec<String> = Vec::new();
    parts.push(crate::json::json_strs_text(&path));
    parts.push(crate::json::json_str_text(intent_field.canonical_hash.as_str()));
    let mut energy_text = String::new();
    push_i64(&mut energy_text, projected_energy);
    parts.push(energy_text);
    parts.push(stability_json_text(&goal_stability));
    let mut whole = String::new();
    push_json_list(&mut whole, &parts);
    let canonical_hash = json_hash_text(&whole);
    let avoided_regions = crate::text::copy_texts(&intent_field.avoidance_regions);
    let t = IntentDrivenTrajectory { selected_path: path, avoided_regions, projected_energy, goal_stability, canonical_hash };
    proof {
        let expected = intent_trajectory_of(pf, iv, current_region@);
        assert(views(t.selected_path@) =~= expected.selected_path);
        assert(t@.goal_stability == expected.goal_stability);
        assert(views(parts@) =~= seq![
            json_strs(expected.selected_path),
            json_str(iv.canonical_hash),
            dec_int(projected_energy as int),
            stability_json(goal_stability),
        ]);
    }
    Ok(t)
}

proof fn lemma_candidates_grow(ps: Seq<PreferenceView>, cur: Seq<char>, avoid: Seq<Seq<char>>, i: int)
    requires
        0 <= i <= ps.len(),
    ensures
        intent_candidates(ps.take(i), cur, avoid).len() <= intent_candidates(ps, cur, avoid).len(),
        forall|k: int|
            0 <= k < intent_candidates(ps.take(i), cur, avoid).len() ==> #[trigger] intent_candidates(ps.take(i), cur, avoid)[k]
                == intent_candidates(ps, cur, avoid)[k],
    decreases ps.len() - i,
{
    if i == ps.len() {
        assert(ps.take(i) =~= ps);
    } else {
        lemma_candidates_grow(ps.drop_last(), cur, avoid, i);
        assert(ps.drop_last().take(i) =~= ps.take(i));
    }
}

proof fn lemma_candidates_prefix(ps: Seq<PreferenceView>, cur: Seq<char>, avoid: Seq<Seq<char>>, i: int)
    requires
        0 <= i < ps.len(),
    ensures
        intent_candidates(ps.take(i + 1), cur, avoid) == (if ps[i].source_region == cur && ps[i].preference_score > 0
            && !avoid.contains(ps[i].target_region) {
            intent_candidates(ps.take(i), cur, avoid).push(ps[i])
        } else {
            intent_candidates(ps.take(i), cur, avoid)
        }),
{
    assert(ps.take(i + 1).drop_last() =~= ps.take(i));
    assert(ps.take(i + 1).last() == ps[i]);
}


// ── arbitration between goals ────────────────────────────────────────────────

/// The goals of several intents merged by region, with their priorities.
#[derive(Debug, Clone, PartialEq, Eq)]
pub struct GoalSet {
    pub goals: Vec<GoalAttractor>,
    /// Relative weights by region id, in id order with one entry per id;
    /// higher is more important.
    pub priority_weights: Vec<(String, i64)>,
    pub canonical_hash: String,
}

/// How the goals pull on one region.
#[derive(Debug, Clone, PartialEq, Eq)]
pub struct ConflictGradient {
    pub region_id: String,
    /// The combined demand of all goals at this region.
    pub total_pull: i64,
    /// The pull of the strongest goal.
    pub dominant_pull: i64,
    /// The demand beyond the strongest goal, when several compete.
    pub interference: i64,
    /// Positive: the goals reinforce; negative: they conflict.
    pub coherence_score: i64,
}

/// Intents arbitrated into one goal set.
#[derive(Debug, Clone, PartialEq, Eq)]
pub struct ArbitratedIntentField {
    pub goal_set: GoalSet,
    pub conflict_gradients: Vec<ConflictGradient>,
    pub dominant_goal_region: String,
    pub arbitration_confidence: i64,
    pub canonical_hash: String,
}

/// The move chosen after arbitration.
#[derive(Debug, Clone, PartialEq, Eq)]
pub struct ConflictResolvedTrajectory {
    pub selected_path: Vec<String>,
    pub deferred_goals: Vec<String>,
    pub conflict_cost: i64,
    pub arbitration_efficiency: i64,
    pub convergent: bool,
    pub canonical_hash: String,
}

pub struct GoalSetView {
    pub goals: Seq<GoalView>,
    pub priority_weights: Seq<(Seq<char>, i64)>,
    pub canonical_hash: Seq<char>,
}

pub struct ConflictView {
    pub region_id: Seq<char>,
    pub total_pull: i64,
    pub dominant_pull: i64,
    pub interference: i64,
    pub coherence_score: i64,
}

pub struct ArbitratedView {
    pub goal_set: GoalSetView,
    pub conflict_gradients: Seq<ConflictView>,
    pub dominant_goal_region: Seq<char>,
    pub arbitration_confidence: i64,
    pub canonical_hash: Seq<char>,
}

pub struct ResolvedView {
    pub selected_path: Seq<Seq<char>>,
    pub deferred_goals: Seq<Seq<char>>,
    pub conflict_cost: i64,
    pub arbitration_efficiency: i64,
    pub convergent: bool,
    pub canonical_hash: Seq<char>,
}

pub open spec fn weight_views(s: Seq<(String, i64)>) -> Seq<(Seq<char>, i64)> {
    s.map_values(|e: (String, i64)| (e.0@, e.1))
}

pub open spec fn weight_keys(s: Seq<(Seq<char>, i64)>) -> Seq<Seq<char>> {
    s.map_values(|e: (Seq<char>, i64)| e.0)
}

impl View for GoalSet {
    type V = GoalSetView;

    open spec fn view(&self) -> GoalSetView {
        GoalSetView {
            goals: goal_views(self.goals@),
            priority_weights: weight_views(self.priority_weights@),
            canonical_hash: self.canonical_hash@,
        }
    }
}

impl View for ConflictGradient {
    type V = ConflictView;

    open spec fn view(&self) -> ConflictView {
        ConflictView {
            region_id: self.region_id@,
            total_pull: self.total_pull,
            dominant_pull: self.dominant_pull,
            interference: self.interference,
            coherence_score: self.coherence_score,
        }
    }
}

pub open spec fn conflict_views(s: Seq<ConflictGradient>) -> Seq<ConflictView> {
    s.map_values(|c: ConflictGradient| c@)
}

impl View for ArbitratedIntentField {
    type V = ArbitratedView;

    open spec fn view(&self) -> ArbitratedView {
        ArbitratedView {
            goal_set: self.goal_set@,
            conflict_gradients: conflict_views(self.conflict_gradients@),
            dominant_goal_region: self.dominant_goal_region@,
            arbitration_confidence: self.arbitration_confidence,
            canonical_hash: self.canonical_hash@,
        }
    }
}

impl View for ConflictResolvedTrajectory {
    type V = ResolvedView;

    open spec fn view(&self) -> ResolvedView {
        ResolvedView {
            selected_path: views(self.selected_path@),
            deferred_goals: views(self.deferred_goals@),
            conflict_cost: self.conflict_cost,
            arbitration_efficiency: self.arbitration_efficiency,
            convergent: self.convergent,
            canonical_hash: self.canonical_hash@,
        }
    }
}

/// The weight a table gives `k`, if any (the table has one entry per key).
pub open spec fn weight_of(ws: Seq<(Seq<char>, i64)>, k: Seq<char>) -> Option<int>
    decreases ws.len(),
{
    if ws.len() == 0 {
        None
    } else if ws.last().0 == k {
        Some(ws.last().1 as int)
    } else {
        weight_of(ws.drop_last(), k)
    }
}

/// A weight table: keys strictly increasing.
pub open spec fn is_weight_table(ws: Seq<(Seq<char>, i64)>) -> bool {
    crate::text::strictly_sorted_texts(weight_keys(ws))
}

/// Every goal of every intent, intent by intent.
pub open spec fn all_goals(intents: Seq<IntentView>) -> Seq<GoalView>
    decreases intents.len(),
{
    if intents.len() == 0 {
        Seq::empty()
    } else {
        all_goals(intents.drop_last()) + intents.last().goal_attractors
    }
}

/// The first goal with region `id`.
pub open spec fn first_goal(gs: Seq<GoalView>, id: Seq<char>) -> Option<GoalView>
    decreases gs.len(),
{
    if gs.len() == 0 {
        None
    } else {
        match first_goal(gs.drop_last(), id) {
            Some(g) => Some(g),
            None => if gs.last().region_id == id { Some(gs.last()) } else { None },
        }
    }
}

/// The weights of the goals with region `id`, each raised by `base`, summed.
pub open spec fn accumulated(gs: Seq<GoalView>, id: Seq<char>, base: int) -> int
    decreases gs.len(),
{
    if gs.len() == 0 {
        0
    } else {
        accumulated(gs.drop_last(), id, base) + (if gs.last().region_id == id {
            gs.last().goal_weight + base
        } else {
            0
        })
    }
}

/// The base weight of `id`: its table weight, or 100.
pub open spec fn base_weight(ws: Seq<(Seq<char>, i64)>, id: Seq<char>) -> int {
    match weight_of(ws, id) {
        Some(w) => w,
        None => 100,
    }
}

/// The merged goal for region `id`.
pub open spec fn merged_goal(gs: Seq<GoalView>, ws: Seq<(Seq<char>, i64)>, id: Seq<char>) -> GoalView {
    let g = first_goal(gs, id).unwrap();
    GoalView {
        region_id: id,
        goal_weight: accumulated(gs, id, base_weight(ws, id)) as i64,
        preferred_energy_ceiling: g.preferred_energy_ceiling,
        persistence_preference: g.persistence_preference,
    }
}

/// Heavier goals first, then by region id.
pub open spec fn heavier_first() -> spec_fn(GoalView, GoalView) -> bool {
    |a: GoalView, b: GoalView|
        a.goal_weight > b.goal_weight || (a.goal_weight == b.goal_weight && text_lt(a.region_id, b.region_id))
}

pub open spec fn weight_json(ws: Seq<(Seq<char>, i64)>) -> Seq<char> {
    crate::json::json_object(
        ws.map_values(|e: (Seq<char>, i64)| crate::json::json_member(e.0, dec_int(e.1 as int))),
    )
}

/// The goal set of several intents: one goal per region, weighing the sum
/// over its goals of their weight plus the region's base weight (100 when
/// `base` has none), with the ceiling and persistence preference of its
/// first goal; heavier goals first. Priorities are `base` with 100 for each
/// goal region it lacks.
pub open spec fn goal_set_of(intents: Seq<IntentView>, base: Seq<(Seq<char>, i64)>) -> GoalSetView {
    let gs = all_goals(intents);
    let ids = listing(goal_ids(gs).to_set());
    let goals = ordered(ids.map_values(|id: Seq<char>| merged_goal(gs, base, id)), heavier_first());
    let keys = listing(weight_keys(base).to_set().union(goal_ids(gs).to_set()));
    let priorities = keys.map_values(|k: Seq<char>| (k, base_weight(base, k) as i64));
    GoalSetView {
        goals,
        priority_weights: priorities,
        canonical_hash: json_hash(
            json_list(seq![json_list(goals.map_values(|g: GoalView| goal_json(g))), weight_json(priorities)]),
        ),
    }
}

/// Merging overflows nowhere: every running sum of a region's weights is an
/// `i64`.
pub open spec fn goal_set_fits(intents: Seq<IntentView>, base: Seq<(Seq<char>, i64)>) -> bool {
    let gs = all_goals(intents);
    &&& gs.len() <= MAX_TEXTS
    &&& forall|k: int| 0 <= k < gs.len() ==> i64::MIN <= (#[trigger] gs[k]).goal_weight + base_weight(base, gs[k].region_id) <= i64::MAX
    &&& forall|k: int, j: int|
        0 <= k < gs.len() && 0 <= j <= gs.len() ==> i64::MIN <= #[trigger] accumulated(
            gs.take(j),
            (#[trigger] gs[k]).region_id,
            base_weight(base, gs[k].region_id),
        ) <= i64::MAX
}


pub open spec fn intent_views(s: Seq<IntentField>) -> Seq<IntentView> {
    s.map_values(|f: IntentField| f@)
}

fn copy_goal(g: &GoalAttractor) -> (c: GoalAttractor)
    ensures
        c@ == g@,
{
    GoalAttractor {
        region_id: g.region_id.clone(),
        goal_weight: g.goal_weight,
        preferred_energy_ceiling: g.preferred_energy_ceiling,
        persistence_preference: g.persistence_preference,
    }
}

fn flatten_goals(intents: &Vec<IntentField>) -> (r: Vec<GoalAttractor>)
    ensures
        goal_views(r@) == all_goals(intent_views(intents@)),
{
    let ghost iv = intent_views(intents@);
    let mut out: Vec<GoalAttractor> = Vec::new();
    let mut i: usize = 0;
    while i < intents.len()
        invariant
            iv == intent_views(intents@),
            i <= iv.len(),
            goal_views(out@) == all_goals(iv.take(i as int)),
        decreases iv.len() - i,
    {
        let ghost start = goal_views(out@);
        let gs = &intents[i].goal_attractors;
        let mut j: usize = 0;
        while j < gs.len()
            invariant
                j <= gs@.len(),
                goal_views(out@) == start + goal_views(gs@).take(j as int),
            decreases gs@.len() - j,
        {
            let ghost before = out@;
            out.push(copy_goal(&gs[j]));
            proof {
                assert(goal_views(out@) =~= goal_views(before).push(goal_views(gs@)[j as int]));
                assert(goal_views(gs@).take(j + 1) =~= goal_views(gs@).take(j as int).push(goal_views(gs@)[j as int]));
            }
            j = j + 1;
        }
        proof {
            assert(goal_views(gs@).take(gs@.len() as int) =~= goal_views(gs@));
            let tk = iv.take(i + 1);
            assert(tk.drop_last() =~= iv.take(i as int));
            assert(tk.last() == intents@[i as int]@);
        }
        i = i + 1;
    }
    assert(iv.take(iv.len() as int) =~= iv);
    out
}

fn weight_lookup(ws: &Vec<(String, i64)>, k: &String) -> (r: Option<i64>)
    ensures
        match r {
            Some(w) => weight_of(weight_views(ws@), k@) == Some(w as int),
            None => weight_of(weight_views(ws@), k@) is None,
        },
{
    let ghost wv = weight_views(ws@);
    let mut found: Option<i64> = None;
    let mut j: usize = 0;
    while j < ws.len()
        invariant
            wv == weight_views(ws@),
            j <= wv.len(),
            match found {
                Some(w) => weight_of(wv.take(j as int), k@) == Some(w as int),
                None => weight_of(wv.take(j as int), k@) is None,
            },
        decreases wv.len() - j,
    {
        proof {
            assert(wv.take(j + 1).drop_last() =~= wv.take(j as int));
            assert(wv.take(j + 1).last() == wv[j as int]);
        }
        if same_text(&ws[j].0, k) {
            found = Some(ws[j].1);
        }
        j = j + 1;
    }
    assert(wv.take(wv.len() as int) =~= wv);
    found
}

fn base_weight_of(ws: &Vec<(String, i64)>, k: &String) -> (w: i64)
    ensures
        w == base_weight(weight_views(ws@), k@),
{
    match weight_lookup(ws, k) {
        Some(w) => w,
        None => 100,
    }
}

proof fn lemma_goal_present(gs: Seq<GoalView>, id: Seq<char>)
    requires
        goal_ids(gs).contains(id),
    ensures
        first_goal(gs, id) is Some,
    decreases gs.len(),
{
    let k = choose|k: int| 0 <= k < goal_ids(gs).len() && goal_ids(gs)[k] == id;
    if k < gs.len() - 1 {
        assert(goal_ids(gs.drop_last())[k] == id);
        lemma_goal_present(gs.drop_last(), id);
    }
}

fn merged_goal_of(flat: &Vec<GoalAttractor>, ws: &Vec<(String, i64)>, id: &String, Ghost(bound): Ghost<Seq<GoalView>>) -> (g: GoalAttractor)
    requires
        goal_views(flat@) == bound,
        bound.len() <= MAX_TEXTS,
        goal_ids(bound).contains(id@),
        forall|k: int| 0 <= k < bound.len() ==> i64::MIN <= (#[trigger] bound[k]).goal_weight + base_weight(weight_views(ws@), bound[k].region_id) <= i64::MAX,
        forall|k: int, j: int|
            0 <= k < bound.len() && 0 <= j <= bound.len() ==> i64::MIN <= #[trigger] accumulated(
                bound.take(j),
                (#[trigger] bound[k]).region_id,
                base_weight(weight_views(ws@), bound[k].region_id),
            ) <= i64::MAX,
    ensures
        g@ == merged_goal(bound, weight_views(ws@), id@),
{
    let ghost wv = weight_views(ws@);
    let base = base_weight_of(ws, id);
    let ghost m0 = choose|m: int| 0 <= m < goal_ids(bound).len() && goal_ids(bound)[m] == id@;
    assert(bound[m0].region_id == id@);
    let mut total: i64 = 0;
    let mut first: usize = 0;
    let mut found = false;
    let mut j: usize = 0;
    while j < flat.len()
        invariant
            goal_views(flat@) == bound,
            wv == weight_views(ws@),
            base == base_weight(wv, id@),
            0 <= m0 < bound.len(),
            bound[m0].region_id == id@,
            forall|k: int| 0 <= k < bound.len() ==> i64::MIN <= (#[trigger] bound[k]).goal_weight + base_weight(wv, bound[k].region_id) <= i64::MAX,
            forall|k: int, q: int|
                0 <= k < bound.len() && 0 <= q <= bound.len() ==> i64::MIN <= #[trigger] accumulated(
                    bound.take(q),
                    (#[trigger] bound[k]).region_id,
                    base_weight(wv, bound[k].region_id),
                ) <= i64::MAX,
            j <= bound.len(),
            total == accumulated(bound.take(j as int), id@, base as int),
            found == (first_goal(bound.take(j as int), id@) is Some),
            found ==> first < j && first_goal(bound.take(j as int), id@) == Some(bound[first as int]),
        decreases bound.len() - j,
    {
        proof {
            assert(bound.take(j + 1).drop_last() =~= bound.take(j as int));
            assert(bound.take(j + 1).last() == bound[j as int]);
            assert(i64::MIN <= accumulated(bound.take(j + 1), bound[m0].region_id, base_weight(wv, bound[m0].region_id)) <= i64::MAX);
        }
        if same_text(&flat[j].region_id, id) {
            assert(i64::MIN <= bound[j as int].goal_weight + base_weight(wv, bound[j as int].region_id) <= i64::MAX);
            total = total + (flat[j].goal_weight + base);
            if !found {
                first = j;
                found = true;
            }
        }
        j = j + 1;
    }
    assert(bound.take(bound.len() as int) =~= bound);
    proof {
        lemma_goal_present(bound, id@);
    }
    GoalAttractor {
        region_id: id.clone(),
        goal_weight: total,
        preferred_energy_ceiling: flat[first].preferred_energy_ceiling,
        persistence_preference: flat[first].persistence_preference,
    }
}

fn goal_precedes(a: &GoalAttractor, b: &GoalAttractor) -> (r: bool)
    ensures
        r == (heavier_first())(a@, b@),
{
    a.goal_weight > b.goal_weight || (a.goal_weight == b.goal_weight && less_than(a.region_id.as_str(), b.region_id.as_str()))
}

fn weights_json_text(ws: &Vec<(String, i64)>) -> (r: String)
    ensures
        r@ == weight_json(weight_views(ws@)),
{
    let ghost items = weight_views(ws@).map_values(|e: (Seq<char>, i64)| crate::json::json_member(e.0, dec_int(e.1 as int)));
    let mut parts: Vec<String> = Vec::new();
    let mut i: usize = 0;
    while i < ws.len()
        invariant
            i <= ws@.len(),
            items == weight_views(ws@).map_values(|e: (Seq<char>, i64)| crate::json::json_member(e.0, dec_int(e.1 as int))),
            views(parts@) == items.take(i as int),
        decreases ws@.len() - i,
    {
        let ghost before = parts@;
        let piece = crate::json::json_int_member(ws[i].0.as_str(), ws[i].1);
        parts.push(piece);
        proof {
            assert(views(parts@) =~= views(before).push(items[i as int]));
        }
        i = i + 1;
        assert(views(parts@) =~= items.take(i as int));
    }
    assert(items.take(ws@.len() as int) =~= items);
    let mut out = String::new();
    crate::json::push_json_object(&mut out, &parts);
    out
}

/// The goal set of several intents (see `goal_set_of`), with a canonical
/// hash over goals and priorities. `base_weights` is a weight table (keys in
/// increasing order, one entry per key).
pub fn build_goal_set(intent_fields: &Vec<IntentField>, base_weights: &Vec<(String, i64)>) -> (r: Result<GoalSet, InvariantViolation>)
    requires
        goal_set_fits(intent_views(intent_fields@), weight_views(base_weights@)),
        base_weights@.len() <= MAX_TEXTS,
    ensures
        r is Ok,
        r matches Ok(g) && g@ == goal_set_of(intent_views(intent_fields@), weight_views(base_weights@)),
{
    let ghost iv = intent_views(intent_fields@);
    let ghost wv = weight_views(base_weights@);
    let flat = flatten_goals(intent_fields);
    let ghost gs = goal_views(flat@);
    let mut id_list: Vec<String> = Vec::new();
    let mut k: usize = 0;
    while k < flat.len()
        invariant
            gs == goal_views(flat@),
            k <= gs.len(),
            views(id_list@) == goal_ids(gs).take(k as int),
        decreases gs.len() - k,
    {
        let ghost before = id_list@;
        id_list.push(flat[k].region_id.clone());
        proof {
            assert(views(id_list@) =~= views(before).push(gs[k as int].region_id));
            assert(goal_ids(gs).take(k + 1) =~= goal_ids(gs).take(k as int).push(goal_ids(gs)[k as int]));
        }
        k = k + 1;
    }
    assert(goal_ids(gs).take(gs.len() as int) =~= goal_ids(gs));
    let ids = distinct_sorted_texts(&id_list);
    let ghost idv = views(ids@);
    proof {
        crate::text::lemma_listing(idv);
    }
    let ghost all = idv.map_values(|id: Seq<char>| merged_goal(gs, wv, id));
    let mut goals: Vec<GoalAttractor> = Vec::new();
    let mut i: usize = 0;
    while i < ids.len()
        invariant
            gs == goal_views(flat@),
            gs == all_goals(iv),
            wv == weight_views(base_weights@),
            goal_set_fits(iv, wv),
            idv == views(ids@),
            idv.to_set() == goal_ids(gs).to_set(),
            all == idv.map_values(|id: Seq<char>| merged_goal(gs, wv, id)),
            i <= idv.len(),
            goal_views(goals@) == ordered(all.take(i as int), heavier_first()),
        decreases idv.len() - i,
    {
        proof {
            assert(idv.to_set().contains(idv[i as int]));
        }
        let g = merged_goal_of(&flat, base_weights, &ids[i], Ghost(gs));
        let mut p: usize = 0;
        while p < goals.len() && !goal_precedes(&g, &goals[p])
            invariant
                p <= goals@.len(),
                forall|q: int| 0 <= q < p ==> !(heavier_first())(g@, #[trigger] goal_views(goals@)[q]),
            decreases goals@.len() - p,
        {
            p = p + 1;
        }
        let ghost before = goal_views(goals@);
        proof {
            crate::text::lemma_insert_ordered_at(before, g@, heavier_first(), p as int);
            let tk = all.take(i + 1);
            assert(tk.drop_last() =~= all.take(i as int));
            assert(tk.last() == g@);
        }
        goals.insert(p, g);
        proof {
            assert(goal_views(goals@) =~= before.subrange(0, p as int) + seq![all[i as int]] + before.subrange(
                p as int,
                before.len() as int,
            ));
        }
        i = i + 1;
    }
    assert(all.take(all.len() as int) =~= all);
    let mut key_list: Vec<String> = Vec::new();
    let mut q: usize = 0;
    while q < base_weights.len()
        invariant
            wv == weight_views(base_weights@),
            q <= wv.len(),
            views(key_list@) == weight_keys(wv).take(q as int),
        decreases wv.len() - q,
    {
        let ghost before = key_list@;
        key_list.push(base_weights[q].0.clone());
        proof {
            assert(views(key_list@) =~= views(before).push(wv[q as int].0));
            assert(weight_keys(wv).take(q + 1) =~= weight_keys(wv).take(q as int).push(weight_keys(wv)[q as int]));
        }
        q = q + 1;
    }
    assert(weight_keys(wv).take(wv.len() as int) =~= weight_keys(wv));
    let mut q2: usize = 0;
    let ghost kstart = views(key_list@);
    while q2 < id_list.len()
        invariant
            q2 <= id_list@.len(),
            views(key_list@) == kstart + views(id_list@).take(q2 as int),
        decreases id_list@.len() - q2,
    {
        let ghost before = key_list@;
        key_list.push(id_list[q2].clone());
        proof {
            assert(views(key_list@) =~= views(before).push(views(id_list@)[q2 as int]));
            assert(views(id_list@).take(q2 + 1) =~= views(id_list@).take(q2 as int).push(views(id_list@)[q2 as int]));
        }
        q2 = q2 + 1;
    }
    assert(views(id_list@).take(id_list@.len() as int) =~= views(id_list@));
    let keys = distinct_sorted_texts(&key_list);
    proof {
        crate::cognition::multiframe_flow::lemma_concat_to_set(weight_keys(wv), goal_ids(gs));
        crate::text::lemma_listing(views(keys@));
    }
    let ghost kv = views(keys@);
    let mut priority_weights: Vec<(String, i64)> = Vec::new();
    let mut m: usize = 0;
    while m < keys.len()
        invariant
            kv == views(keys@),
            wv == weight_views(base_weights@),
            m <= kv.len(),
            weight_views(priority_weights@) == kv.take(m as int).map_values(|k: Seq<char>| (k, base_weight(wv, k) as i64)),
        decreases kv.len() - m,
    {
        let ghost before = priority_weights@;
        let w = base_weight_of(base_weights, &keys[m]);
        priority_weights.push((keys[m].clone(), w));
        proof {
            assert(weight_views(priority_weights@) =~= weight_views(before).push((kv[m as int], w)));
            assert(kv.take(m + 1).map_values(|k: Seq<char>| (k, base_weight(wv, k) as i64)) =~= kv.take(m as int).map_values(
                |k: Seq<char>| (k, base_weight(wv, k) as i64),
            ).push((kv[m as int], base_weight(wv, kv[m as int]) as i64)));
        }
        m = m + 1;
    }
    assert(kv.take(kv.len() as int) =~= kv);
    let mut parts: Vec<String> = Vec::new();
    parts.push(goals_json_text(&goals));
    parts.push(weights_json_text(&priority_weights));
    let mut whole = String::new();
    push_json_list(&mut whole, &parts);
    let ghost gv = goal_views(goals@);
    proof {
        assert(views(parts@) =~= seq![
            json_list(gv.map_values(|g: GoalView| goal_json(g))),
            weight_json(weight_views(priority_weights@)),
        ]);
    }
    let canonical_hash = json_hash_text(&whole);
    Ok(GoalSet { goals, priority_weights, canonical_hash })
}


// ── conflicts between goals ──────────────────────────────────────────────────

/// How many goals target `id`.
pub open spec fn pull_count(gs: Seq<GoalView>, id: Seq<char>) -> int
    decreases gs.len(),
{
    if gs.len() == 0 {
        0
    } else {
        pull_count(gs.drop_last(), id) + (if gs.last().region_id == id { 1int } else { 0int })
    }
}

/// The summed weight of the goals that target `id`.
pub open spec fn pull_sum(gs: Seq<GoalView>, id: Seq<char>) -> int
    decreases gs.len(),
{
    if gs.len() == 0 {
        0
    } else {
        pull_sum(gs.drop_last(), id) + (if gs.last().region_id == id { gs.last().goal_weight as int } else { 0int })
    }
}

/// The largest weight of a goal that targets `id` (0 for none).
pub open spec fn pull_max(gs: Seq<GoalView>, id: Seq<char>) -> int
    decreases gs.len(),
{
    if gs.len() == 0 {
        0
    } else {
        let rest = pull_max(gs.drop_last(), id);
        if gs.last().region_id != id {
            rest
        } else if pull_count(gs.drop_last(), id) == 0 || gs.last().goal_weight >= rest {
            gs.last().goal_weight as int
        } else {
            rest
        }
    }
}

/// How the goals pull on the region of `e`: their total and the strongest
/// pull; when several compete, the demand beyond the strongest is
/// interference and coherence is the strongest pull less it.
pub open spec fn conflict_of(gs: Seq<GoalView>, e: EnergyView) -> ConflictView {
    let n = pull_count(gs, e.region_id);
    let total = pull_sum(gs, e.region_id);
    let dom = pull_max(gs, e.region_id);
    let interference = if n > 1 { max_int(total - dom, 0) } else { 0 };
    ConflictView {
        region_id: e.region_id,
        total_pull: total as i64,
        dominant_pull: dom as i64,
        interference: interference as i64,
        coherence_score: (if n == 0 { 0 } else if n == 1 { dom } else { dom - interference }) as i64,
    }
}

/// More coherent first, then by region id.
pub open spec fn coherent_first() -> spec_fn(ConflictView, ConflictView) -> bool {
    |a: ConflictView, b: ConflictView|
        a.coherence_score > b.coherence_score || (a.coherence_score == b.coherence_score && text_lt(
            a.region_id,
            b.region_id,
        ))
}

/// One conflict gradient per region of the potential field, most coherent
/// first.
pub open spec fn conflicts_of(goal_set: GoalSetView, pf: PotentialView) -> Seq<ConflictView> {
    ordered(
        pf.stability_energies.map_values(|e: EnergyView| conflict_of(goal_set.goals, e)),
        coherent_first(),
    )
}

/// Summing the pulls overflows nowhere.
pub open spec fn conflicts_fit(goal_set: GoalSetView, pf: PotentialView) -> bool {
    let gs = goal_set.goals;
    forall|k: int|
        0 <= k < pf.stability_energies.len() ==> {
            let id = (#[trigger] pf.stability_energies[k]).region_id;
            &&& forall|j: int| 0 <= j <= gs.len() ==> i64::MIN <= #[trigger] pull_sum(gs.take(j), id) <= i64::MAX
            &&& i64::MIN <= pull_sum(gs, id) - pull_max(gs, id) <= i64::MAX
            &&& i64::MIN <= pull_max(gs, id) - max_int(pull_sum(gs, id) - pull_max(gs, id), 0) <= i64::MAX
        }
}

fn conflict_entry(gs: &Vec<GoalAttractor>, e: &crate::cognition::multiframe_energy::StabilityEnergy) -> (c: ConflictGradient)
    requires
        forall|j: int| 0 <= j <= gs@.len() ==> i64::MIN <= #[trigger] pull_sum(goal_views(gs@).take(j), e@.region_id) <= i64::MAX,
        i64::MIN <= pull_sum(goal_views(gs@), e@.region_id) - pull_max(goal_views(gs@), e@.region_id) <= i64::MAX,
        i64::MIN <= pull_max(goal_views(gs@), e@.region_id) - max_int(
            pull_sum(goal_views(gs@), e@.region_id) - pull_max(goal_views(gs@), e@.region_id),
            0,
        ) <= i64::MAX,
    ensures
        c@ == conflict_of(goal_views(gs@), e@),
{
    let ghost gv = goal_views(gs@);
    let ghost id = e@.region_id;
    let mut total: i64 = 0;
    let mut dom: i64 = 0;
    let mut count: usize = 0;
    let mut j: usize = 0;
    while j < gs.len()
        invariant
            gv == goal_views(gs@),
            id == e@.region_id,
            forall|q: int| 0 <= q <= gs@.len() ==> i64::MIN <= #[trigger] pull_sum(gv.take(q), id) <= i64::MAX,
            j <= gv.len(),
            total == pull_sum(gv.take(j as int), id),
            dom == pull_max(gv.take(j as int), id),
            count == pull_count(gv.take(j as int), id),
            count <= j,
        decreases gv.len() - j,
    {
        proof {
            assert(gv.take(j + 1).drop_last() =~= gv.take(j as int));
            assert(gv.take(j + 1).last() == gv[j as int]);
            assert(i64::MIN <= pull_sum(gv.take(j + 1), id) <= i64::MAX);
        }
        if same_text(&gs[j].region_id, &e.region_id) {
            total = total + gs[j].goal_weight;
            if count == 0 || gs[j].goal_weight >= dom {
                dom = gs[j].goal_weight;
            }
            count = count + 1;
        }
        j = j + 1;
    }
    assert(gv.take(gv.len() as int) =~= gv);
    let interference = if count > 1 {
        if total - dom > 0 {
            total - dom
        } else {
            0
        }
    } else {
        0
    };
    let coherence_score = if count == 0 {
        0
    } else if count == 1 {
        dom
    } else {
        dom - interference
    };
    ConflictGradient { region_id: e.region_id.clone(), total_pull: total, dominant_pull: dom, interference, coherence_score }
}

fn conflict_precedes(a: &ConflictGradient, b: &ConflictGradient) -> (r: bool)
    ensures
        r == (coherent_first())(a@, b@),
{
    a.coherence_score > b.coherence_score || (a.coherence_score == b.coherence_score && less_than(
        a.region_id.as_str(),
        b.region_id.as_str(),
    ))
}

/// How the goals of a goal set pull on each region of a potential field
/// (see `conflict_of`), most coherent first, then by region id.
pub fn compute_conflict_gradients(goal_set: &GoalSet, potential_field: &CognitivePotentialField) -> (r: Result<Vec<ConflictGradient>, InvariantViolation>)
    requires
        conflicts_fit(goal_set@, potential_field@),
    ensures
        r is Ok,
        r matches Ok(v) && conflict_views(v@) == conflicts_of(goal_set@, potential_field@),
{
    let ghost es = potential_field@.stability_energies;
    let ghost all = es.map_values(|e: EnergyView| conflict_of(goal_set@.goals, e));
    let mut out: Vec<ConflictGradient> = Vec::new();
    let mut i: usize = 0;
    while i < potential_field.stability_energies.len()
        invariant
            es == potential_field@.stability_energies,
            conflicts_fit(goal_set@, potential_field@),
            all == es.map_values(|e: EnergyView| conflict_of(goal_set@.goals, e)),
            i <= es.len(),
            conflict_views(out@) == ordered(all.take(i as int), coherent_first()),
        decreases es.len() - i,
    {
        proof {
            assert(es[i as int] == potential_field.stability_energies@[i as int]@);
            let id = es[i as int].region_id;
            assert forall|j: int| 0 <= j <= goal_set.goals@.len() implies i64::MIN <= #[trigger] pull_sum(
                goal_views(goal_set.goals@).take(j),
                id,
            ) <= i64::MAX by {
                assert(goal_set@.goals == goal_views(goal_set.goals@));
            }
        }
        let x = conflict_entry(&goal_set.goals, &potential_field.stability_energies[i]);
        let mut p: usize = 0;
        while p < out.len() && !conflict_precedes(&x, &out[p])
            invariant
                p <= out@.len(),
                forall|q: int| 0 <= q < p ==> !(coherent_first())(x@, #[trigger] conflict_views(out@)[q]),
            decreases out@.len() - p,
        {
            p = p + 1;
        }
        let ghost before = conflict_views(out@);
        proof {
            crate::text::lemma_insert_ordered_at(before, x@, coherent_first(), p as int);
            let tk = all.take(i + 1);
            assert(tk.drop_last() =~= all.take(i as int));
            assert(tk.last() == x@);
        }
        out.insert(p, x);
        proof {
            assert(conflict_views(out@) =~= before.subrange(0, p as int) + seq![all[i as int]] + before.subrange(
                p as int,
                before.len() as int,
            ));
        }
        i = i + 1;
    }
    assert(all.take(all.len() as int) =~= all);
    Ok(out)
}


// ── arbitration and resolution ───────────────────────────────────────────────

pub open spec fn conflict_json(c: ConflictView) -> Seq<char> {
    "{\"region_id\":"@ + json_str(c.region_id) + ",\"total_pull\":"@ + dec_int(c.total_pull as int)
        + ",\"dominant_pull\":"@ + dec_int(c.dominant_pull as int) + ",\"interference\":"@ + dec_int(
        c.interference as int,
    ) + ",\"coherence_score\":"@ + dec_int(c.coherence_score as int) + "}"@
}

fn conflict_json_text(c: &ConflictGradient) -> (r: String)
    ensures
        r@ == conflict_json(c@),
{
    let mut out = String::new();
    out.append("{\"region_id\":");
    push_json_str(&mut out, c.region_id.as_str());
    out.append(",\"total_pull\":");
    push_i64(&mut out, c.total_pull);
    out.append(",\"dominant_pull\":");
    push_i64(&mut out, c.dominant_pull);
    out.append(",\"interference\":");
    push_i64(&mut out, c.interference);
    out.append(",\"coherence_score\":");
    push_i64(&mut out, c.coherence_score);
    out.append("}");
    out
}

fn conflicts_json_text(v: &Vec<ConflictGradient>) -> (r: String)
    ensures
        r@ == json_list(conflict_views(v@).map_values(|c: ConflictView| conflict_json(c))),
{
    let ghost items = conflict_views(v@).map_values(|c: ConflictView| conflict_json(c));
    let mut parts: Vec<String> = Vec::new();
    let mut i: usize = 0;
    while i < v.len()
        invariant
            i <= v@.len(),
            items == conflict_views(v@).map_values(|c: ConflictView| conflict_json(c)),
            views(parts@) == items.take(i as int),
        decreases v@.len() - i,
    {
        let ghost before = parts@;
        let piece = conflict_json_text(&v[i]);
        parts.push(piece);
        proof {
            assert(views(parts@) =~= views(before).push(items[i as int]));
        }
        i = i + 1;
        assert(views(parts@) =~= items.take(i as int));
    }
    assert(items.take(v@.len() as int) =~= items);
    let mut out = String::new();
    push_json_list(&mut out, &parts);
    out
}

/// The summed interference of the conflict gradients.
pub open spec fn interference_total(cs: Seq<ConflictView>) -> int
    decreases cs.len(),
{
    if cs.len() == 0 {
        0
    } else {
        interference_total(cs.drop_last()) + cs.last().interference
    }
}

/// Several intents arbitrated against a potential field: their goal set,
/// its conflict gradients, the heaviest goal as dominant region, and a
/// confidence of 1000 less a tenth of the mean interference (at most 500
/// less).
pub open spec fn arbitrated_of(intents: Seq<IntentView>, pf: PotentialView, base: Seq<(Seq<char>, i64)>) -> ArbitratedView {
    let gset = goal_set_of(intents, base);
    let cs = conflicts_of(gset, pf);
    let dominant = if gset.goals.len() > 0 { gset.goals[0].region_id } else { Seq::empty() };
    let denom = max_int(cs.len() as int, 1) * 10;
    let conf = max_int(1000 - crate::cognition::multiframe_energy::min_int(interference_total(cs) / denom, 500), 0);
    ArbitratedView {
        goal_set: gset,
        conflict_gradients: cs,
        dominant_goal_region: dominant,
        arbitration_confidence: conf as i64,
        canonical_hash: json_hash(
            json_list(
                seq![
                    json_str(gset.canonical_hash),
                    json_list(cs.map_values(|c: ConflictView| conflict_json(c))),
                    json_str(dominant),
                    dec_int(conf),
                ],
            ),
        ),
    }
}

/// Arbitrating overflows nowhere.
pub open spec fn arbitration_fits(intents: Seq<IntentView>, pf: PotentialView, base: Seq<(Seq<char>, i64)>) -> bool {
    &&& goal_set_fits(intents, base)
    &&& base.len() <= MAX_TEXTS
    &&& conflicts_fit(goal_set_of(intents, base), pf)
    &&& pf.stability_energies.len() <= MAX_TEXTS
    &&& interference_total(conflicts_of(goal_set_of(intents, base), pf)) <= i64::MAX
}

proof fn lemma_interference_prefix(cs: Seq<ConflictView>, k: int)
    requires
        0 <= k <= cs.len(),
        forall|m: int| 0 <= m < cs.len() ==> (#[trigger] cs[m]).interference >= 0,
    ensures
        0 <= interference_total(cs.take(k)) <= interference_total(cs),
    decreases cs.len(),
{
    if cs.len() == 0 {
        assert(cs.take(k) =~= cs);
    } else {
        let d = cs.drop_last();
        assert forall|m: int| 0 <= m < d.len() implies (#[trigger] d[m]).interference >= 0 by {
            assert(d[m] == cs[m]);
        }
        assert(cs.last() == cs[cs.len() - 1]);
        if k == cs.len() {
            lemma_interference_prefix(d, d.len() as int);
            assert(d.take(d.len() as int) =~= d);
            assert(cs.take(k) =~= cs);
        } else {
            lemma_interference_prefix(d, k);
            assert(d.take(k) =~= cs.take(k));
        }
    }
}

proof fn lemma_conflicts_nonnegative(gset: GoalSetView, pf: PotentialView)
    requires
        conflicts_fit(gset, pf),
    ensures
        forall|m: int| 0 <= m < conflicts_of(gset, pf).len() ==> (#[trigger] conflicts_of(gset, pf)[m]).interference >= 0,
        conflicts_of(gset, pf).len() == pf.stability_energies.len(),
{
    let all = pf.stability_energies.map_values(|e: EnergyView| conflict_of(gset.goals, e));
    lemma_ordered_contents(all, coherent_first());
    assert forall|m: int| 0 <= m < conflicts_of(gset, pf).len() implies (#[trigger] conflicts_of(gset, pf)[m]).interference >= 0 by {
        let c = conflicts_of(gset, pf)[m];
        assert(conflicts_of(gset, pf).contains(c));
        assert(all.contains(c));
        let q = choose|q: int| 0 <= q < all.len() && all[q] == c;
        let id = pf.stability_energies[q].region_id;
        assert(i64::MIN <= pull_sum(gset.goals, id) - pull_max(gset.goals, id) <= i64::MAX);
    }
}

/// Sorting keeps the length and draws every element from the input.
pub proof fn lemma_ordered_contents<T>(s: Seq<T>, before: spec_fn(T, T) -> bool)
    ensures
        ordered(s, before).len() == s.len(),
        forall|y: T| #[trigger] ordered(s, before).contains(y) ==> s.contains(y),
    decreases s.len(),
{
    if s.len() > 0 {
        lemma_ordered_contents(s.drop_last(), before);
        lemma_insert_ordered_contents(ordered(s.drop_last(), before), s.last(), before);
        assert forall|y: T| #[trigger] ordered(s, before).contains(y) implies s.contains(y) by {
            if ordered(s.drop_last(), before).contains(y) {
                assert(s.drop_last().contains(y));
                let m = choose|m: int| 0 <= m < s.drop_last().len() && s.drop_last()[m] == y;
                assert(s[m] == y);
            } else {
                assert(s[s.len() - 1] == y);
            }
        }
    }
}

pub proof fn lemma_insert_ordered_contents<T>(s: Seq<T>, x: T, before: spec_fn(T, T) -> bool)
    ensures
        crate::text::insert_ordered(s, x, before).len() == s.len() + 1,
        forall|y: T| #[trigger] crate::text::insert_ordered(s, x, before).contains(y) ==> s.contains(y) || y == x,
    decreases s.len(),
{
    if s.len() > 0 && !before(x, s[0]) {
        lemma_insert_ordered_contents(s.drop_first(), x, before);
        assert forall|y: T| #[trigger] crate::text::insert_ordered(s, x, before).contains(y) implies s.contains(y) || y == x by {
            let r = crate::text::insert_ordered(s, x, before);
            let k = choose|k: int| 0 <= k < r.len() && r[k] == y;
            if k == 0 {
                assert(s[0] == y);
            } else {
                let t = crate::text::insert_ordered(s.drop_first(), x, before);
                assert(t[k - 1] == y);
                assert(t.contains(y));
                if s.drop_first().contains(y) {
                    let m = choose|m: int| 0 <= m < s.drop_first().len() && s.drop_first()[m] == y;
                    assert(s[m + 1] == y);
                }
            }
        }
    } else if s.len() > 0 {
        assert forall|y: T| #[trigger] crate::text::insert_ordered(s, x, before).contains(y) implies s.contains(y) || y == x by {
            let r = crate::text::insert_ordered(s, x, before);
            let k = choose|k: int| 0 <= k < r.len() && r[k] == y;
            if k > 0 {
                assert(s[k - 1] == y);
            }
        }
    } else {
        assert forall|y: T| #[trigger] crate::text::insert_ordered(s, x, before).contains(y) implies s.contains(y) || y == x by {
            let r = crate::text::insert_ordered(s, x, before);
            let k = choose|k: int| 0 <= k < r.len() && r[k] == y;
        }
    }
}

fn interference_sum(cs: &Vec<ConflictGradient>) -> (t: i64)
    requires
        forall|m: int| 0 <= m < cs@.len() ==> (#[trigger] conflict_views(cs@)[m]).interference >= 0,
        interference_total(conflict_views(cs@)) <= i64::MAX,
    ensures
        t == interference_total(conflict_views(cs@)),
        t >= 0,
{
    let ghost cv = conflict_views(cs@);
    let mut t: i64 = 0;
    let mut i: usize = 0;
    while i < cs.len()
        invariant
            cv == conflict_views(cs@),
            forall|m: int| 0 <= m < cv.len() ==> (#[trigger] cv[m]).interference >= 0,
            interference_total(cv) <= i64::MAX,
            i <= cv.len(),
            t == interference_total(cv.take(i as int)),
        decreases cv.len() - i,
    {
        proof {
            assert(cv.take(i + 1).drop_last() =~= cv.take(i as int));
            assert(cv.take(i + 1).last() == cv[i as int]);
            lemma_interference_prefix(cv, i + 1);
        }
        t = t + cs[i].interference;
        i = i + 1;
    }
    proof {
        assert(cv.take(cv.len() as int) =~= cv);
        lemma_interference_prefix(cv, cv.len() as int);
    }
    t
}

/// Several intents arbitrated against a potential field (see
/// `arbitrated_of`), with a canonical hash over the goal set's hash, the
/// conflicts, the dominant region and the confidence. `base_weights` is a
/// weight table.
pub fn arbitrate_intent_field(
    intent_fields: &Vec<IntentField>,
    potential_field: &CognitivePotentialField,
    base_weights: &Vec<(String, i64)>,
) -> (r: Result<ArbitratedIntentField, InvariantViolation>)
    requires
        arbitration_fits(intent_views(intent_fields@), potential_field@, weight_views(base_weights@)),
    ensures
        r is Ok,
        r matches Ok(a) && a@ == arbitrated_of(intent_views(intent_fields@), potential_field@, weight_views(base_weights@)),
{
    let goal_set = match build_goal_set(intent_fields, base_weights) {
        Ok(g) => g,
        Err(e) => {
            return Err(e);
        },
    };
    let conflict_gradients = match compute_conflict_gradients(&goal_set, potential_field) {
        Ok(c) => c,
        Err(e) => {
            return Err(e);
        },
    };
    proof {
        lemma_conflicts_nonnegative(goal_set@, potential_field@);
    }
    let dominant_goal_region = if goal_set.goals.len() > 0 {
        goal_set.goals[0].region_id.clone()
    } else {
        String::new()
    };
    let total = interference_sum(&conflict_gradients);
    let n: i64 = if conflict_gradients.len() > 1 {
        conflict_gradients.len() as i64
    } else {
        1
    };
    let share = total / (n * 10);
    let capped = if share < 500 {
        share
    } else {
        500
    };
    let arbitration_confidence = if 1000 - capped > 0 {
        1000 - capped
    } else {
        0
    };
    let mut parts: Vec<String> = Vec::new();
    parts.push(crate::json::json_str_text(goal_set.canonical_hash.as_str()));
    parts.push(conflicts_json_text(&conflict_gradients));
    parts.push(crate::json::json_str_text(dominant_goal_region.as_str()));
    let mut conf_text = String::new();
    push_i64(&mut conf_text, arbitration_confidence);
    parts.push(conf_text);
    let mut whole = String::new();
    push_json_list(&mut whole, &parts);
    let canonical_hash = json_hash_text(&whole);
    let ghost expected = arbitrated_of(intent_views(intent_fields@), potential_field@, weight_views(base_weights@));
    proof {
        assert(arbitration_confidence == expected.arbitration_confidence);
        assert(dominant_goal_region@ == expected.dominant_goal_region);
        assert(views(parts@) =~= seq![
            json_str(goal_set@.canonical_hash),
            json_list(conflict_views(conflict_gradients@).map_values(|c: ConflictView| conflict_json(c))),
            json_str(dominant_goal_region@),
            dec_int(arbitration_confidence as int),
        ]);
    }
    let a = ArbitratedIntentField { goal_set, conflict_gradients, dominant_goal_region, arbitration_confidence, canonical_hash };
    Ok(a)
}


/// A destination considered after arbitration.
pub struct Pick {
    pub target: Seq<char>,
    pub score: int,
    pub cost: int,
}

/// Some gradient leads from `cur` to `id`.
pub open spec fn reachable_from(gs: Seq<GradientView>, cur: Seq<char>, id: Seq<char>) -> bool {
    exists|k: int| 0 <= k < gs.len() && (#[trigger] gs[k]).source_region == cur && gs[k].target_region == id
}

/// The score of moving from `cur` to the region of `c`: its coherence, plus
/// the potential it descends, plus its priority, less its interference.
pub open spec fn pick_score(c: ConflictView, pf: PotentialView, ws: Seq<(Seq<char>, i64)>, cur: Seq<char>) -> int {
    let tp = potential_at(pf.stability_energies, c.region_id, 1000);
    let sp = potential_at(pf.stability_energies, cur, 1000);
    let gw: int = match weight_of(ws, c.region_id) {
        Some(w) => w,
        None => 0,
    };
    c.coherence_score + max_int(sp - tp, 0) + gw - c.interference
}

/// The reachable regions other than `cur` with a positive score, in order.
pub open spec fn picks(cs: Seq<ConflictView>, pf: PotentialView, ws: Seq<(Seq<char>, i64)>, cur: Seq<char>) -> Seq<Pick>
    decreases cs.len(),
{
    if cs.len() == 0 {
        Seq::empty()
    } else {
        let rest = picks(cs.drop_last(), pf, ws, cur);
        let c = cs.last();
        if c.region_id != cur && reachable_from(pf.gradients, cur, c.region_id) && pick_score(c, pf, ws, cur) > 0 {
            rest.push(Pick { target: c.region_id, score: pick_score(c, pf, ws, cur), cost: c.interference as int })
        } else {
            rest
        }
    }
}

/// Higher score first, then by region id.
pub open spec fn pick_first() -> spec_fn(Pick, Pick) -> bool {
    |a: Pick, b: Pick| a.score > b.score || (a.score == b.score && text_lt(a.target, b.target))
}

/// The goal regions other than `chosen` and `cur`, in goal order.
pub open spec fn deferred_of(goals: Seq<GoalView>, chosen: Seq<char>, cur: Seq<char>) -> Seq<Seq<char>>
    decreases goals.len(),
{
    if goals.len() == 0 {
        Seq::empty()
    } else {
        let rest = deferred_of(goals.drop_last(), chosen, cur);
        let r = goals.last().region_id;
        if r != chosen && r != cur { rest.push(r) } else { rest }
    }
}

/// 1000 less the mean interference (at most 500 less, never below 0).
pub open spec fn resolution_efficiency(cs: Seq<ConflictView>) -> int {
    max_int(
        1000 - crate::cognition::multiframe_energy::min_int(
            quot(interference_total(cs), max_int(cs.len() as int, 1)),
            500,
        ),
        0,
    )
}

/// The move chosen after arbitration: toward the best-scoring reachable
/// region, else toward the dominant goal (when it is another region), else
/// staying put; the goals not chosen are deferred; the move converges when
/// its conflict cost is under 200 and the efficiency over 600.
pub open spec fn resolved_of(arb: ArbitratedView, pf: PotentialView, cur: Seq<char>) -> ResolvedView {
    let ps = ordered(picks(arb.conflict_gradients, pf, arb.goal_set.priority_weights, cur), pick_first());
    let dominant = arb.dominant_goal_region;
    let (path, cost) = if ps.len() > 0 {
        (seq![cur, ps[0].target], ps[0].cost)
    } else if dominant.len() > 0 && dominant != cur {
        (seq![cur, dominant], 0int)
    } else {
        (seq![cur], 0int)
    };
    let chosen = path.last();
    let deferred = deferred_of(arb.goal_set.goals, chosen, cur);
    let eff = resolution_efficiency(arb.conflict_gradients);
    ResolvedView {
        selected_path: path,
        deferred_goals: deferred,
        conflict_cost: cost as i64,
        arbitration_efficiency: eff as i64,
        convergent: cost < 200 && eff > 600,
        canonical_hash: json_hash(
            json_list(
                seq![json_strs(path), json_strs(deferred), dec_int(cost), dec_int(eff), json_str(arb.canonical_hash)],
            ),
        ),
    }
}

/// Resolving overflows nowhere.
pub open spec fn resolution_fits(arb: ArbitratedView, pf: PotentialView, cur: Seq<char>) -> bool {
    let cs = arb.conflict_gradients;
    let ws = arb.goal_set.priority_weights;
    let sp = potential_at(pf.stability_energies, cur, 1000);
    &&& cs.len() <= MAX_TEXTS
    &&& forall|k: int|
        0 <= k < cs.len() && (#[trigger] cs[k]).region_id != cur && reachable_from(pf.gradients, cur, cs[k].region_id) ==> {
            let tp = potential_at(pf.stability_energies, cs[k].region_id, 1000);
            let gw: int = match weight_of(ws, cs[k].region_id) {
                Some(w) => w,
                None => 0,
            };
            &&& i64::MIN <= sp - tp <= i64::MAX
            &&& i64::MIN <= cs[k].coherence_score + max_int(sp - tp, 0) <= i64::MAX
            &&& i64::MIN <= cs[k].coherence_score + max_int(sp - tp, 0) + gw <= i64::MAX
            &&& i64::MIN <= cs[k].coherence_score + max_int(sp - tp, 0) + gw - cs[k].interference <= i64::MAX
        }
    &&& forall|k: int| 0 <= k <= cs.len() ==> i64::MIN <= #[trigger] interference_total(cs.take(k)) <= i64::MAX
    &&& 1000 - crate::cognition::multiframe_energy::min_int(quot(interference_total(cs), max_int(cs.len() as int, 1)), 500) <= i64::MAX
}

fn reachable_exec(gs: &Vec<crate::cognition::multiframe_energy::EnergyGradient>, cur: &String, id: &String) -> (r: bool)
    ensures
        r == reachable_from(crate::cognition::multiframe_energy::gradient_views(gs@), cur@, id@),
{
    let ghost gv = crate::cognition::multiframe_energy::gradient_views(gs@);
    let mut k: usize = 0;
    while k < gs.len()
        invariant
            gv == crate::cognition::multiframe_energy::gradient_views(gs@),
            k <= gv.len(),
            forall|q: int| 0 <= q < k ==> !((#[trigger] gv[q]).source_region == cur@ && gv[q].target_region == id@),
        decreases gv.len() - k,
    {
        if same_text(&gs[k].source_region, cur) && same_text(&gs[k].target_region, id) {
            assert(gv[k as int].source_region == cur@ && gv[k as int].target_region == id@);
            return true;
        }
        k = k + 1;
    }
    false
}

fn pot_or_thousand(es: &Vec<crate::cognition::multiframe_energy::StabilityEnergy>, region: &String) -> (v: i64)
    ensures
        v == potential_at(crate::cognition::multiframe_energy::energy_views(es@), region@, 1000),
{
    let ghost ev = crate::cognition::multiframe_energy::energy_views(es@);
    let mut found: Option<i64> = None;
    let mut j: usize = 0;
    while j < es.len()
        invariant
            ev == crate::cognition::multiframe_energy::energy_views(es@),
            j <= ev.len(),
            match found {
                Some(v) => potential_at(ev.take(j as int), region@, 1000) == v,
                None => potential_at(ev.take(j as int), region@, 1000) == 1000,
            },
        decreases ev.len() - j,
    {
        proof {
            assert(ev.take(j + 1).drop_last() =~= ev.take(j as int));
            assert(ev.take(j + 1).last() == ev[j as int]);
        }
        if same_text(&es[j].region_id, region) {
            found = Some(es[j].potential);
        }
        j = j + 1;
    }
    assert(ev.take(ev.len() as int) =~= ev);
    match found {
        Some(v) => v,
        None => 1000,
    }
}

pub open spec fn pick_view(p: (String, i64, i64)) -> Pick {
    Pick { target: p.0@, score: p.1 as int, cost: p.2 as int }
}

pub open spec fn pick_views(s: Seq<(String, i64, i64)>) -> Seq<Pick> {
    s.map_values(|p: (String, i64, i64)| pick_view(p))
}

fn ordered_picks(arbitrated: &ArbitratedIntentField, potential_field: &CognitivePotentialField, cur: &String) -> (r: Vec<(String, i64, i64)>)
    requires
        resolution_fits(arbitrated@, potential_field@, cur@),
    ensures
        pick_views(r@) == ordered(
            picks(arbitrated@.conflict_gradients, potential_field@, arbitrated@.goal_set.priority_weights, cur@),
            pick_first(),
        ),
{
    let ghost cs = arbitrated@.conflict_gradients;
    let ghost pf = potential_field@;
    let ghost ws = arbitrated@.goal_set.priority_weights;
    let sp = pot_or_thousand(&potential_field.stability_energies, cur);
    let mut out: Vec<(String, i64, i64)> = Vec::new();
    let mut i: usize = 0;
    while i < arbitrated.conflict_gradients.len()
        invariant
            cs == arbitrated@.conflict_gradients,
            pf == potential_field@,
            ws == arbitrated@.goal_set.priority_weights,
            resolution_fits(arbitrated@, potential_field@, cur@),
            sp == potential_at(pf.stability_energies, cur@, 1000),
            i <= cs.len(),
            pick_views(out@) == ordered(picks(cs.take(i as int), pf, ws, cur@), pick_first()),
        decreases cs.len() - i,
    {
        let c = &arbitrated.conflict_gradients[i];
        proof {
            assert(cs.take(i + 1).drop_last() =~= cs.take(i as int));
            assert(cs.take(i + 1).last() == cs[i as int]);
            assert(cs[i as int] == c@);
        }
        if !same_text(&c.region_id, cur) && reachable_exec(&potential_field.gradients, cur, &c.region_id) {
            let tp = pot_or_thousand(&potential_field.stability_energies, &c.region_id);
            let gain = if sp - tp > 0 {
                sp - tp
            } else {
                0
            };
            let gw: i64 = match weight_lookup(&arbitrated.goal_set.priority_weights, &c.region_id) {
                Some(w) => w,
                None => 0,
            };
            let score = c.coherence_score + gain + gw - c.interference;
            if score > 0 {
                let x = (c.region_id.clone(), score, c.interference);
                let mut p: usize = 0;
                while p < out.len() && !(x.1 > out[p].1 || (x.1 == out[p].1 && less_than(x.0.as_str(), out[p].0.as_str())))
                    invariant
                        p <= out@.len(),
                        forall|q: int| 0 <= q < p ==> !(pick_first())(pick_view(x), #[trigger] pick_views(out@)[q]),
                    decreases out@.len() - p,
                {
                    p = p + 1;
                }
                let ghost before = pick_views(out@);
                proof {
                    crate::text::lemma_insert_ordered_at(before, pick_view(x), pick_first(), p as int);
                    let prev = picks(cs.take(i as int), pf, ws, cur@);
                    assert(prev.push(pick_view(x)).drop_last() =~= prev);
                }
                out.insert(p, x);
                proof {
                    assert(pick_views(out@) =~= before.subrange(0, p as int) + seq![pick_view(x)] + before.subrange(
                        p as int,
                        before.len() as int,
                    ));
                }
            }
        }
        i = i + 1;
    }
    assert(cs.take(cs.len() as int) =~= cs);
    out
}

fn interference_sum_any(cs: &Vec<ConflictGradient>) -> (t: i64)
    requires
        forall|k: int| 0 <= k <= cs@.len() ==> i64::MIN <= #[trigger] interference_total(conflict_views(cs@).take(k)) <= i64::MAX,
    ensures
        t == interference_total(conflict_views(cs@)),
{
    let ghost cv = conflict_views(cs@);
    let mut t: i64 = 0;
    let mut i: usize = 0;
    while i < cs.len()
        invariant
            cv == conflict_views(cs@),
            forall|k: int| 0 <= k <= cv.len() ==> i64::MIN <= #[trigger] interference_total(cv.take(k)) <= i64::MAX,
            i <= cv.len(),
            t == interference_total(cv.take(i as int)),
        decreases cv.len() - i,
    {
        proof {
            assert(cv.take(i + 1).drop_last() =~= cv.take(i as int));
            assert(cv.take(i + 1).last() == cv[i as int]);
            assert(i64::MIN <= interference_total(cv.take(i + 1)) <= i64::MAX);
        }
        t = t + cs[i].interference;
        i = i + 1;
    }
    assert(cv.take(cv.len() as int) =~= cv);
    t
}

fn deferred_list(goals: &Vec<GoalAttractor>, chosen: &String, cur: &String) -> (r: Vec<String>)
    ensures
        views(r@) == deferred_of(goal_views(goals@), chosen@, cur@),
{
    let ghost gv = goal_views(goals@);
    let mut out: Vec<String> = Vec::new();
    let mut i: usize = 0;
    while i < goals.len()
        invariant
            gv == goal_views(goals@),
            i <= gv.len(),
            views(out@) == deferred_of(gv.take(i as int), chosen@, cur@),
        decreases gv.len() - i,
    {
        proof {
            assert(gv.take(i + 1).drop_last() =~= gv.take(i as int));
            assert(gv.take(i + 1).last() == gv[i as int]);
        }
        let r = &goals[i].region_id;
        if !same_text(r, chosen) && !same_text(r, cur) {
            let ghost before = out@;
            out.push(r.clone());
            proof {
                assert(views(out@) =~= views(before).push(gv[i as int].region_id));
            }
        }
        i = i + 1;
    }
    assert(gv.take(gv.len() as int) =~= gv);
    out
}

fn efficiency_after(cs: &Vec<ConflictGradient>, Ghost(arb): Ghost<ArbitratedView>) -> (e: i64)
    requires
        conflict_views(cs@) == arb.conflict_gradients,
        cs@.len() <= MAX_TEXTS,
        forall|k: int| 0 <= k <= cs@.len() ==> i64::MIN <= #[trigger] interference_total(conflict_views(cs@).take(k)) <= i64::MAX,
        1000 - crate::cognition::multiframe_energy::min_int(quot(interference_total(arb.conflict_gradients), max_int(cs@.len() as int, 1)), 500) <= i64::MAX,
    ensures
        e == resolution_efficiency(arb.conflict_gradients),
{
    let total = interference_sum_any(cs);
    let n: i64 = if cs.len() > 1 {
        cs.len() as i64
    } else {
        1
    };
    let share = if total >= 0 {
        total / n
    } else {
        -((-(total as i128)) / (n as i128)) as i64
    };
    let capped = if share < 500 {
        share
    } else {
        500
    };
    if 1000 - capped > 0 {
        1000 - capped
    } else {
        0
    }
}

/// The move chosen from `current_region` after arbitration (see
/// `resolved_of`), with a canonical hash over the path, the deferred goals,
/// the cost, the efficiency and the arbitration's hash.
pub fn resolve_trajectory(
    arbitrated: &ArbitratedIntentField,
    potential_field: &CognitivePotentialField,
    current_region: &str,
) -> (r: Result<ConflictResolvedTrajectory, InvariantViolation>)
    requires
        resolution_fits(arbitrated@, potential_field@, current_region@),
    ensures
        r is Ok,
        r matches Ok(t) && t@ == resolved_of(arbitrated@, potential_field@, current_region@),
{
    let ghost arb = arbitrated@;
    let cur = text(current_region);
    let ordered_list = ordered_picks(arbitrated, potential_field, &cur);
    let dominant = &arbitrated.dominant_goal_region;
    let mut selected_path: Vec<String> = Vec::new();
    selected_path.push(cur.clone());
    let mut conflict_cost: i64 = 0;
    if ordered_list.len() > 0 {
        selected_path.push(ordered_list[0].0.clone());
        conflict_cost = ordered_list[0].2;
    } else if !crate::text::is_blank(dominant) && !same_text(dominant, &cur) {
        proof {
            assert(dominant@.len() > 0);
        }
        selected_path.push(dominant.clone());
    }
    let chosen = selected_path[selected_path.len() - 1].clone();
    let deferred_goals = deferred_list(&arbitrated.goal_set.goals, &chosen, &cur);
    let arbitration_efficiency = efficiency_after(&arbitrated.conflict_gradients, Ghost(arb));
    let convergent = conflict_cost < 200 && arbitration_efficiency > 600;
    let mut parts: Vec<String> = Vec::new();
    parts.push(crate::json::json_strs_text(&selected_path));
    parts.push(crate::json::json_strs_text(&deferred_goals));
    let mut cost_text = String::new();
    push_i64(&mut cost_text, conflict_cost);
    parts.push(cost_text);
    let mut eff_text = String::new();
    push_i64(&mut eff_text, arbitration_efficiency);
    parts.push(eff_text);
    parts.push(crate::json::json_str_text(arbitrated.canonical_hash.as_str()));
    let mut whole = String::new();
    push_json_list(&mut whole, &parts);
    let canonical_hash = json_hash_text(&whole);
    let ghost expected = resolved_of(arb, potential_field@, current_region@);
    proof {
        assert(views(selected_path@) =~= expected.selected_path);
        assert(chosen@ == expected.selected_path.last());
        assert(views(parts@) =~= seq![
            json_strs(expected.selected_path),
            json_strs(views(deferred_goals@)),
            dec_int(conflict_cost as int),
            dec_int(arbitration_efficiency as int),
            json_str(arb.canonical_hash),
        ]);
    }
    Ok(ConflictResolvedTrajectory { selected_path, deferred_goals, conflict_cost, arbitration_efficiency, convergent, canonical_hash })
}


// ── self-consistency: the goal hierarchy ─────────────────────────────────────

/// Goals ranked into layers: the heaviest goal alone, the next two, the rest.
#[derive(Debug, Clone, PartialEq, Eq)]
pub struct GoalHierarchy {
    pub layers: Vec<Vec<String>>,
    /// Child goal to parent goal, in child order with one entry per child.
    pub parent_links: Vec<(String, String)>,
    pub canonical_hash: String,
}

pub struct HierarchyView {
    pub layers: Seq<Seq<Seq<char>>>,
    pub parent_links: Seq<(Seq<char>, Seq<char>)>,
    pub canonical_hash: Seq<char>,
}

pub open spec fn layer_views(s: Seq<Vec<String>>) -> Seq<Seq<Seq<char>>> {
    s.map_values(|l: Vec<String>| views(l@))
}

pub open spec fn link_views(s: Seq<(String, String)>) -> Seq<(Seq<char>, Seq<char>)> {
    s.map_values(|e: (String, String)| (e.0@, e.1@))
}

impl View for GoalHierarchy {
    type V = HierarchyView;

    open spec fn view(&self) -> HierarchyView {
        HierarchyView {
            layers: layer_views(self.layers@),
            parent_links: link_views(self.parent_links@),
            canonical_hash: self.canonical_hash@,
        }
    }
}

/// The priority of a goal region: its weight, or 0.
pub open spec fn priority_of(ws: Seq<(Seq<char>, i64)>, id: Seq<char>) -> int {
    match weight_of(ws, id) {
        Some(w) => w,
        None => 0,
    }
}

/// Higher priority first, then by id.
pub open spec fn priority_first(ws: Seq<(Seq<char>, i64)>) -> spec_fn(Seq<char>, Seq<char>) -> bool {
    |a: Seq<char>, b: Seq<char>| priority_of(ws, a) > priority_of(ws, b) || (priority_of(ws, a) == priority_of(ws, b) && text_lt(a, b))
}

/// The goal regions of an arbitration ranked by priority.
pub open spec fn ranked_goals(arb: ArbitratedView) -> Seq<Seq<char>> {
    ordered(goal_ids(arb.goal_set.goals), priority_first(arb.goal_set.priority_weights))
}

pub open spec fn sorted_copy(s: Seq<Seq<char>>) -> Seq<Seq<char>> {
    keyed_sorted(s, crate::text::text_key())
}

pub open spec fn links_json(ls: Seq<(Seq<char>, Seq<char>)>) -> Seq<char> {
    crate::json::json_object(
        ls.map_values(|e: (Seq<char>, Seq<char>)| crate::json::json_member(e.0, json_str(e.1))),
    )
}

pub open spec fn layers_json(ls: Seq<Seq<Seq<char>>>) -> Seq<char> {
    json_list(ls.map_values(|l: Seq<Seq<char>>| json_strs(l)))
}

/// The hierarchy of an arbitration's goals: the top-ranked goal alone; the
/// next two (in text order) as its children; the rest (in text order) as
/// children of the first of those (or of the top goal).
pub open spec fn hierarchy_of(arb: ArbitratedView) -> HierarchyView {
    let g = ranked_goals(arb);
    let (layers, links) = if g.len() == 0 {
        (Seq::<Seq<Seq<char>>>::empty(), Seq::<(Seq<char>, Seq<char>)>::empty())
    } else {
        let root = g[0];
        let second = sorted_copy(g.subrange(1, if g.len() < 3 { g.len() as int } else { 3 }));
        let third = sorted_copy(g.subrange(if g.len() < 3 { g.len() as int } else { 3 }, g.len() as int));
        let parent = if second.len() > 0 { second[0] } else { root };
        let layers = if third.len() > 0 {
            seq![seq![root], second, third]
        } else if second.len() > 0 {
            seq![seq![root], second]
        } else {
            seq![seq![root]]
        };
        let children = listing(second.to_set().union(third.to_set()));
        let links = children.map_values(
            |c: Seq<char>| (c, if third.contains(c) { parent } else { root }),
        );
        (layers, links)
    };
    HierarchyView {
        layers,
        parent_links: links,
        canonical_hash: json_hash(json_list(seq![layers_json(layers), links_json(links)])),
    }
}


fn priority_lookup(ws: &Vec<(String, i64)>, id: &String) -> (p: i64)
    ensures
        p == priority_of(weight_views(ws@), id@),
{
    match weight_lookup(ws, id) {
        Some(w) => w,
        None => 0,
    }
}

fn id_precedes(pw: &Vec<(String, i64)>, x: &String, px: i64, y: &String) -> (r: bool)
    requires
        px == priority_of(weight_views(pw@), x@),
    ensures
        r == (priority_first(weight_views(pw@)))(x@, y@),
{
    let py = priority_lookup(pw, y);
    px > py || (px == py && less_than(x.as_str(), y.as_str()))
}

fn ranked_goal_ids(arbitrated: &ArbitratedIntentField) -> (r: Vec<String>)
    ensures
        views(r@) == ranked_goals(arbitrated@),
{
    let ghost arb = arbitrated@;
    let ghost ws = arb.goal_set.priority_weights;
    let ghost ids = goal_ids(arb.goal_set.goals);
    let goals = &arbitrated.goal_set.goals;
    let pw = &arbitrated.goal_set.priority_weights;
    let mut out: Vec<String> = Vec::new();
    let mut i: usize = 0;
    while i < goals.len()
        invariant
            arb == arbitrated@,
            ws == arb.goal_set.priority_weights,
            ws == weight_views(pw@),
            ids == goal_ids(arb.goal_set.goals),
            ids.len() == goals@.len(),
            goal_views(goals@) == arb.goal_set.goals,
            i <= ids.len(),
            views(out@) == ordered(ids.take(i as int), priority_first(ws)),
        decreases ids.len() - i,
    {
        let x = goals[i].region_id.clone();
        let px = priority_lookup(pw, &x);
        let mut p: usize = 0;
        while p < out.len() && !id_precedes(pw, &x, px, &out[p])
            invariant
                p <= out@.len(),
                ws == weight_views(pw@),
                px == priority_of(ws, x@),
                forall|q: int| 0 <= q < p ==> !(priority_first(ws))(x@, #[trigger] views(out@)[q]),
            decreases out@.len() - p,
        {
            p = p + 1;
        }
        let ghost before = views(out@);
        proof {
            crate::text::lemma_insert_ordered_at(before, x@, priority_first(ws), p as int);
            let tk = ids.take(i + 1);
            assert(tk.drop_last() =~= ids.take(i as int));
            assert(tk.last() == x@);
        }
        out.insert(p, x);
        proof {
            assert(views(out@) =~= before.subrange(0, p as int) + seq![ids[i as int]] + before.subrange(
                p as int,
                before.len() as int,
            ));
        }
        i = i + 1;
    }
    assert(ids.take(ids.len() as int) =~= ids);
    out
}

fn slice_texts(v: &Vec<String>, from: usize, to: usize) -> (r: Vec<String>)
    requires
        from <= to <= v@.len(),
    ensures
        views(r@) == views(v@).subrange(from as int, to as int),
{
    let mut out: Vec<String> = Vec::new();
    let mut k: usize = from;
    while k < to
        invariant
            from <= k <= to,
            to <= v@.len(),
            views(out@) == views(v@).subrange(from as int, k as int),
        decreases to - k,
    {
        let ghost before = out@;
        out.push(v[k].clone());
        proof {
            assert(views(out@) =~= views(before).push(views(v@)[k as int]));
            assert(views(v@).subrange(from as int, k + 1) =~= views(v@).subrange(from as int, k as int).push(
                views(v@)[k as int],
            ));
        }
        k = k + 1;
    }
    out
}

fn layers_json_text(ls: &Vec<Vec<String>>) -> (r: String)
    ensures
        r@ == layers_json(layer_views(ls@)),
{
    let ghost items = layer_views(ls@).map_values(|l: Seq<Seq<char>>| json_strs(l));
    let mut parts: Vec<String> = Vec::new();
    let mut i: usize = 0;
    while i < ls.len()
        invariant
            i <= ls@.len(),
            items == layer_views(ls@).map_values(|l: Seq<Seq<char>>| json_strs(l)),
            views(parts@) == items.take(i as int),
        decreases ls@.len() - i,
    {
        let ghost before = parts@;
        parts.push(crate::json::json_strs_text(&ls[i]));
        proof {
            assert(views(parts@) =~= views(before).push(items[i as int]));
        }
        i = i + 1;
        assert(views(parts@) =~= items.take(i as int));
    }
    assert(items.take(ls@.len() as int) =~= items);
    let mut out = String::new();
    push_json_list(&mut out, &parts);
    out
}

fn links_json_text(ls: &Vec<(String, String)>) -> (r: String)
    ensures
        r@ == links_json(link_views(ls@)),
{
    let ghost items = link_views(ls@).map_values(|e: (Seq<char>, Seq<char>)| crate::json::json_member(e.0, json_str(e.1)));
    let mut parts: Vec<String> = Vec::new();
    let mut i: usize = 0;
    while i < ls.len()
        invariant
            i <= ls@.len(),
            items == link_views(ls@).map_values(|e: (Seq<char>, Seq<char>)| crate::json::json_member(e.0, json_str(e.1))),
            views(parts@) == items.take(i as int),
        decreases ls@.len() - i,
    {
        let ghost before = parts@;
        parts.push(crate::json::json_str_member(ls[i].0.as_str(), ls[i].1.as_str()));
        proof {
            assert(views(parts@) =~= views(before).push(items[i as int]));
        }
        i = i + 1;
        assert(views(parts@) =~= items.take(i as int));
    }
    assert(items.take(ls@.len() as int) =~= items);
    let mut out = String::new();
    crate::json::push_json_object(&mut out, &parts);
    out
}

/// The hierarchy of an arbitration's goals (see `hierarchy_of`), with a
/// canonical hash over layers and parent links.
pub fn build_goal_hierarchy(arbitrated: &ArbitratedIntentField) -> (r: Result<GoalHierarchy, InvariantViolation>)
    ensures
        r is Ok,
        r matches Ok(h) && h@ == hierarchy_of(arbitrated@),
{
    let ghost arb = arbitrated@;
    let goals = ranked_goal_ids(arbitrated);
    let ghost g = views(goals@);
    let mut layers: Vec<Vec<String>> = Vec::new();
    let mut parent_links: Vec<(String, String)> = Vec::new();
    if goals.len() > 0 {
        let root = goals[0].clone();
        let mid = if goals.len() < 3 {
            goals.len()
        } else {
            3
        };
        let second_raw = slice_texts(&goals, 1, mid);
        let third_raw = slice_texts(&goals, mid, goals.len());
        let second = crate::text::sorted_text_copy(&second_raw);
        let third = crate::text::sorted_text_copy(&third_raw);
        let mut top: Vec<String> = Vec::new();
        top.push(root.clone());
        let parent = if second.len() > 0 {
            second[0].clone()
        } else {
            root.clone()
        };
        let mut both: Vec<String> = crate::text::copy_texts(&second);
        let mut k: usize = 0;
        let ghost bstart = views(both@);
        while k < third.len()
            invariant
                k <= third@.len(),
                views(both@) == bstart + views(third@).take(k as int),
            decreases third@.len() - k,
        {
            let ghost before = both@;
            both.push(third[k].clone());
            proof {
                assert(views(both@) =~= views(before).push(views(third@)[k as int]));
                assert(views(third@).take(k + 1) =~= views(third@).take(k as int).push(views(third@)[k as int]));
            }
            k = k + 1;
        }
        assert(views(third@).take(third@.len() as int) =~= views(third@));
        let children = distinct_sorted_texts(&both);
        proof {
            crate::cognition::multiframe_flow::lemma_concat_to_set(views(second@), views(third@));
            crate::text::lemma_listing(views(children@));
        }
        let ghost cv = views(children@);
        let ghost tv = views(third@);
        let mut m: usize = 0;
        while m < children.len()
            invariant
                cv == views(children@),
                tv == views(third@),
                m <= cv.len(),
                link_views(parent_links@) == cv.take(m as int).map_values(
                    |c: Seq<char>| (c, if tv.contains(c) { parent@ } else { root@ }),
                ),
            decreases cv.len() - m,
        {
            let ghost before = parent_links@;
            let to = if crate::text::has_text(&third, children[m].as_str()) {
                parent.clone()
            } else {
                root.clone()
            };
            parent_links.push((children[m].clone(), to));
            proof {
                assert(link_views(parent_links@) =~= link_views(before).push((cv[m as int], to@)));
                assert(cv.take(m + 1).map_values(|c: Seq<char>| (c, if tv.contains(c) { parent@ } else { root@ }))
                    =~= cv.take(m as int).map_values(|c: Seq<char>| (c, if tv.contains(c) { parent@ } else { root@ })).push(
                    (cv[m as int], if tv.contains(cv[m as int]) { parent@ } else { root@ }),
                ));
            }
            m = m + 1;
        }
        assert(cv.take(cv.len() as int) =~= cv);
        let has_second = second.len() > 0;
        let has_third = third.len() > 0;
        layers.push(top);
        if has_second {
            layers.push(second);
        }
        if has_third {
            layers.push(third);
        }
        proof {
            assert(views(layers@[0]@) =~= seq![root@]);
        }
    }
    let mut parts: Vec<String> = Vec::new();
    parts.push(layers_json_text(&layers));
    parts.push(links_json_text(&parent_links));
    let mut whole = String::new();
    push_json_list(&mut whole, &parts);
    let canonical_hash = json_hash_text(&whole);
    let h = GoalHierarchy { layers, parent_links, canonical_hash };
    proof {
        let expected = hierarchy_of(arb);
        assert(h@.layers =~= expected.layers);
        assert(h@.parent_links =~= expected.parent_links);
        assert(views(parts@) =~= seq![layers_json(expected.layers), links_json(expected.parent_links)]);
    }
    Ok(h)
}


// ── self-consistency: meta preferences ───────────────────────────────────────

/// How much one goal reinforces another's priority.
#[derive(Debug, Clone, PartialEq, Eq)]
pub struct MetaPreferenceGradient {
    pub source_goal: String,
    pub target_goal: String,
    /// Positive: the source reinforces the target's priority.
    pub influence: i64,
    pub coherence_delta: i64,
    pub conflict_delta: i64,
    pub net_meta_pull: i64,
}

/// How consistent the goal structure is with itself.
#[derive(Debug, Clone, Copy, PartialEq, Eq, Structural)]
pub struct SelfCoherenceMetric {
    pub hierarchy_coherence: i64,
    pub conflict_load: i64,
    pub revision_pressure: i64,
    pub temporal_stability: i64,
    pub self_consistency: i64,
}

/// The goal hierarchy with its meta preferences and self-coherence.
#[derive(Debug, Clone, PartialEq, Eq)]
pub struct MetaIntentField {
    pub hierarchy: GoalHierarchy,
    pub meta_preference_gradients: Vec<MetaPreferenceGradient>,
    pub self_coherence: SelfCoherenceMetric,
    pub revision_candidates: Vec<String>,
    pub canonical_hash: String,
}

/// The move chosen with the goals to revise.
#[derive(Debug, Clone, PartialEq, Eq)]
pub struct MetaIntentTrajectory {
    pub selected_path: Vec<String>,
    pub revised_goals: Vec<String>,
    pub deferred_goals: Vec<String>,
    pub coherence_metric: SelfCoherenceMetric,
    pub canonical_hash: String,
}

pub struct MetaView {
    pub source_goal: Seq<char>,
    pub target_goal: Seq<char>,
    pub influence: i64,
    pub coherence_delta: i64,
    pub conflict_delta: i64,
    pub net_meta_pull: i64,
}

pub struct MetaFieldView {
    pub hierarchy: HierarchyView,
    pub meta_preference_gradients: Seq<MetaView>,
    pub self_coherence: SelfCoherenceMetric,
    pub revision_candidates: Seq<Seq<char>>,
    pub canonical_hash: Seq<char>,
}

pub struct MetaTrajectoryView {
    pub selected_path: Seq<Seq<char>>,
    pub revised_goals: Seq<Seq<char>>,
    pub deferred_goals: Seq<Seq<char>>,
    pub coherence_metric: SelfCoherenceMetric,
    pub canonical_hash: Seq<char>,
}

impl View for MetaPreferenceGradient {
    type V = MetaView;

    open spec fn view(&self) -> MetaView {
        MetaView {
            source_goal: self.source_goal@,
            target_goal: self.target_goal@,
            influence: self.influence,
            coherence_delta: self.coherence_delta,
            conflict_delta: self.conflict_delta,
            net_meta_pull: self.net_meta_pull,
        }
    }
}

pub open spec fn meta_views(s: Seq<MetaPreferenceGradient>) -> Seq<MetaView> {
    s.map_values(|m: MetaPreferenceGradient| m@)
}

impl View for MetaIntentField {
    type V = MetaFieldView;

    open spec fn view(&self) -> MetaFieldView {
        MetaFieldView {
            hierarchy: self.hierarchy@,
            meta_preference_gradients: meta_views(self.meta_preference_gradients@),
            self_coherence: self.self_coherence,
            revision_candidates: views(self.revision_candidates@),
            canonical_hash: self.canonical_hash@,
        }
    }
}

impl View for MetaIntentTrajectory {
    type V = MetaTrajectoryView;

    open spec fn view(&self) -> MetaTrajectoryView {
        MetaTrajectoryView {
            selected_path: views(self.selected_path@),
            revised_goals: views(self.revised_goals@),
            deferred_goals: views(self.deferred_goals@),
            coherence_metric: self.coherence_metric,
            canonical_hash: self.canonical_hash@,
        }
    }
}

/// The index of the last layer that holds `g`, or `usize::MAX`.
pub open spec fn layer_of(layers: Seq<Seq<Seq<char>>>, g: Seq<char>) -> int
    decreases layers.len(),
{
    if layers.len() == 0 {
        usize::MAX as int
    } else if layers.last().contains(g) {
        layers.len() - 1
    } else {
        layer_of(layers.drop_last(), g)
    }
}

/// The interference of the last conflict gradient at `id`, or 0.
pub open spec fn interference_at(cs: Seq<ConflictView>, id: Seq<char>) -> int
    decreases cs.len(),
{
    if cs.len() == 0 {
        0
    } else if cs.last().region_id == id {
        cs.last().interference as int
    } else {
        interference_at(cs.drop_last(), id)
    }
}

/// How goal `s` bears on goal `t`: its priority over `t`'s; +120 from a
/// higher layer, +30 within a layer, −60 from a lower one; less half the
/// interference at `t`.
pub open spec fn meta_of(arb: ArbitratedView, h: HierarchyView, s: Seq<char>, t: Seq<char>) -> MetaView {
    let ws = arb.goal_set.priority_weights;
    let influence = priority_of(ws, s) - priority_of(ws, t);
    let sl = layer_of(h.layers, s);
    let tl = layer_of(h.layers, t);
    let coherence: int = if sl < tl { 120 } else if sl == tl { 30 } else { -60 };
    let conflict = quot(interference_at(arb.conflict_gradients, t), 2);
    MetaView {
        source_goal: s,
        target_goal: t,
        influence: influence as i64,
        coherence_delta: coherence as i64,
        conflict_delta: conflict as i64,
        net_meta_pull: (influence + coherence - conflict) as i64,
    }
}

/// The meta gradients from `s` to each goal of `ts` other than `s`.
pub open spec fn meta_row(arb: ArbitratedView, h: HierarchyView, s: Seq<char>, ts: Seq<Seq<char>>) -> Seq<MetaView>
    decreases ts.len(),
{
    if ts.len() == 0 {
        Seq::empty()
    } else {
        let rest = meta_row(arb, h, s, ts.drop_last());
        if ts.last() == s { rest } else { rest.push(meta_of(arb, h, s, ts.last())) }
    }
}

/// The meta gradients from each goal of `ss` to every other goal.
pub open spec fn meta_rows(arb: ArbitratedView, h: HierarchyView, ss: Seq<Seq<char>>, ts: Seq<Seq<char>>) -> Seq<MetaView>
    decreases ss.len(),
{
    if ss.len() == 0 {
        Seq::empty()
    } else {
        meta_rows(arb, h, ss.drop_last(), ts) + meta_row(arb, h, ss.last(), ts)
    }
}

/// Higher net pull first, then by source and target goal.
pub open spec fn pull_first() -> spec_fn(MetaView, MetaView) -> bool {
    |a: MetaView, b: MetaView|
        a.net_meta_pull > b.net_meta_pull || (a.net_meta_pull == b.net_meta_pull && (text_lt(a.source_goal, b.source_goal)
            || (a.source_goal == b.source_goal && text_lt(a.target_goal, b.target_goal))))
}

/// The meta gradients between every ordered pair of distinct goals, highest
/// net pull first.
pub open spec fn meta_gradients_of(arb: ArbitratedView, h: HierarchyView) -> Seq<MetaView> {
    let ids = goal_ids(arb.goal_set.goals);
    ordered(meta_rows(arb, h, ids, ids), pull_first())
}

/// Relating every pair of goals overflows nowhere.
pub open spec fn meta_fits(arb: ArbitratedView, h: HierarchyView) -> bool {
    let ids = goal_ids(arb.goal_set.goals);
    let ws = arb.goal_set.priority_weights;
    &&& ids.len() <= crate::cognition::multiframe_topology::MAX_ANCHORS
    &&& forall|a: int, b: int|
        0 <= a < ids.len() && 0 <= b < ids.len() && ids[a] != ids[b] ==> {
            let influence = priority_of(ws, #[trigger] ids[a]) - priority_of(ws, #[trigger] ids[b]);
            &&& i64::MIN <= influence <= i64::MAX
            &&& i64::MIN <= influence + 120 <= i64::MAX
            &&& i64::MIN <= influence - 60 <= i64::MAX
            &&& i64::MIN <= influence + 120 - quot(interference_at(arb.conflict_gradients, ids[b]), 2) <= i64::MAX
            &&& i64::MIN <= influence + 30 - quot(interference_at(arb.conflict_gradients, ids[b]), 2) <= i64::MAX
            &&& i64::MIN <= influence - 60 - quot(interference_at(arb.conflict_gradients, ids[b]), 2) <= i64::MAX
        }
}

fn layer_index_of(layers: &Vec<Vec<String>>, g: &String) -> (r: usize)
    ensures
        r as int == layer_of(layer_views(layers@), g@),
{
    let ghost lv = layer_views(layers@);
    let mut found: usize = usize::MAX;
    let mut i: usize = 0;
    while i < layers.len()
        invariant
            lv == layer_views(layers@),
            i <= lv.len(),
            found as int == layer_of(lv.take(i as int), g@),
        decreases lv.len() - i,
    {
        proof {
            assert(lv.take(i + 1).drop_last() =~= lv.take(i as int));
            assert(lv.take(i + 1).last() == lv[i as int]);
        }
        if crate::text::has_text(&layers[i], g.as_str()) {
            found = i;
        }
        i = i + 1;
    }
    assert(lv.take(lv.len() as int) =~= lv);
    found
}

fn interference_of(cs: &Vec<ConflictGradient>, id: &String) -> (r: i64)
    ensures
        r == interference_at(conflict_views(cs@), id@),
{
    let ghost cv = conflict_views(cs@);
    let mut found: i64 = 0;
    let mut i: usize = 0;
    while i < cs.len()
        invariant
            cv == conflict_views(cs@),
            i <= cv.len(),
            found == interference_at(cv.take(i as int), id@),
        decreases cv.len() - i,
    {
        proof {
            assert(cv.take(i + 1).drop_last() =~= cv.take(i as int));
            assert(cv.take(i + 1).last() == cv[i as int]);
        }
        if same_text(&cs[i].region_id, id) {
            found = cs[i].interference;
        }
        i = i + 1;
    }
    assert(cv.take(cv.len() as int) =~= cv);
    found
}

fn half(x: i64) -> (r: i64)
    ensures
        r == quot(x as int, 2),
{
    x / 2
}

fn meta_precedes(a: &MetaPreferenceGradient, b: &MetaPreferenceGradient) -> (r: bool)
    ensures
        r == (pull_first())(a@, b@),
{
    if a.net_meta_pull > b.net_meta_pull {
        return true;
    }
    if a.net_meta_pull < b.net_meta_pull {
        return false;
    }
    if less_than(a.source_goal.as_str(), b.source_goal.as_str()) {
        return true;
    }
    if !same_text(&a.source_goal, &b.source_goal) {
        return false;
    }
    less_than(a.target_goal.as_str(), b.target_goal.as_str())
}

/// How each goal of an arbitration bears on every other (see `meta_of`),
/// highest net pull first, then by source and target goal.
pub fn compute_meta_preference_gradients(arbitrated: &ArbitratedIntentField, hierarchy: &GoalHierarchy) -> (r: Result<Vec<MetaPreferenceGradient>, InvariantViolation>)
    requires
        meta_fits(arbitrated@, hierarchy@),
    ensures
        r is Ok,
        r matches Ok(v) && meta_views(v@) == meta_gradients_of(arbitrated@, hierarchy@),
{
    let ghost arb = arbitrated@;
    let ghost h = hierarchy@;
    let ghost ids = goal_ids(arb.goal_set.goals);
    let goals = &arbitrated.goal_set.goals;
    let pw = &arbitrated.goal_set.priority_weights;
    let mut raw: Vec<MetaPreferenceGradient> = Vec::new();
    let mut i: usize = 0;
    while i < goals.len()
        invariant
            arb == arbitrated@,
            h == hierarchy@,
            ids == goal_ids(arb.goal_set.goals),
            goal_views(goals@) == arb.goal_set.goals,
            weight_views(pw@) == arb.goal_set.priority_weights,
            ids.len() == goals@.len(),
            meta_fits(arb, h),
            i <= ids.len(),
            meta_views(raw@) == meta_rows(arb, h, ids.take(i as int), ids),
        decreases ids.len() - i,
    {
        let source = &goals[i].region_id;
        assert(source@ == ids[i as int]);
        let ps = priority_lookup(pw, source);
        let sl = layer_index_of(&hierarchy.layers, source);
        let ghost start = meta_views(raw@);
        let mut j: usize = 0;
        while j < goals.len()
            invariant
                arb == arbitrated@,
                h == hierarchy@,
                ids == goal_ids(arb.goal_set.goals),
                goal_views(goals@) == arb.goal_set.goals,
                weight_views(pw@) == arb.goal_set.priority_weights,
                ids.len() == goals@.len(),
                meta_fits(arb, h),
                i < ids.len(),
                source@ == ids[i as int],
                ps == priority_of(arb.goal_set.priority_weights, source@),
                sl as int == layer_of(h.layers, source@),
                j <= ids.len(),
                meta_views(raw@) == start + meta_row(arb, h, source@, ids.take(j as int)),
            decreases ids.len() - j,
        {
            let target = &goals[j].region_id;
            assert(target@ == ids[j as int]);
            proof {
                assert(ids.take(j + 1).drop_last() =~= ids.take(j as int));
                assert(ids.take(j + 1).last() == ids[j as int]);
            }
            if !same_text(source, target) {
                let pt = priority_lookup(pw, target);
                let tl = layer_index_of(&hierarchy.layers, target);
                let inter = interference_of(&arbitrated.conflict_gradients, target);
                proof {
                    assert(ids[i as int] != ids[j as int]);
                }
                let influence = ps - pt;
                let coherence_delta: i64 = if sl < tl {
                    120
                } else if sl == tl {
                    30
                } else {
                    -60
                };
                let conflict_delta = half(inter);
                let m = MetaPreferenceGradient {
                    source_goal: source.clone(),
                    target_goal: target.clone(),
                    influence,
                    coherence_delta,
                    conflict_delta,
                    net_meta_pull: influence + coherence_delta - conflict_delta,
                };
                let ghost before = meta_views(raw@);
                raw.push(m);
                proof {
                    assert(meta_views(raw@) =~= before.push(meta_of(arb, h, source@, target@)));
                }
            }
            j = j + 1;
        }
        proof {
            assert(ids.take(ids.len() as int) =~= ids);
            let tk = ids.take(i + 1);
            assert(tk.drop_last() =~= ids.take(i as int));
            assert(tk.last() == ids[i as int]);
        }
        i = i + 1;
    }
    assert(ids.take(ids.len() as int) =~= ids);
    let ghost all = meta_views(raw@);
    let mut out: Vec<MetaPreferenceGradient> = Vec::new();
    let mut k: usize = 0;
    while k < raw.len()
        invariant
            all == meta_views(raw@),
            k <= all.len(),
            meta_views(out@) == ordered(all.take(k as int), pull_first()),
        decreases all.len() - k,
    {
        let x = MetaPreferenceGradient {
            source_goal: raw[k].source_goal.clone(),
            target_goal: raw[k].target_goal.clone(),
            influence: raw[k].influence,
            coherence_delta: raw[k].coherence_delta,
            conflict_delta: raw[k].conflict_delta,
            net_meta_pull: raw[k].net_meta_pull,
        };
        let mut p: usize = 0;
        while p < out.len() && !meta_precedes(&x, &out[p])
            invariant
                p <= out@.len(),
                forall|q: int| 0 <= q < p ==> !(pull_first())(x@, #[trigger] meta_views(out@)[q]),
            decreases out@.len() - p,
        {
            p = p + 1;
        }
        let ghost before = meta_views(out@);
        proof {
            crate::text::lemma_insert_ordered_at(before, x@, pull_first(), p as int);
            let tk = all.take(k + 1);
            assert(tk.drop_last() =~= all.take(k as int));
            assert(tk.last() == x@);
        }
        out.insert(p, x);
        proof {
            assert(meta_views(out@) =~= before.subrange(0, p as int) + seq![all[k as int]] + before.subrange(
                p as int,
                before.len() as int,
            ));
        }
        k = k + 1;
    }
    assert(all.take(all.len() as int) =~= all);
    Ok(out)
}


// ── self-coherence and the meta intent ───────────────────────────────────────

/// How many meta gradients pull negatively.
pub open spec fn negative_pulls(ms: Seq<MetaView>) -> int
    decreases ms.len(),
{
    if ms.len() == 0 {
        0
    } else {
        negative_pulls(ms.drop_last()) + (if ms.last().net_meta_pull < 0 { 1int } else { 0int })
    }
}

/// The self-coherence of a goal structure: 1000 less 120 per layer beyond
/// the first; the mean interference as conflict load; 40 per negative meta
/// pull as revision pressure; temporal stability 800 without recent hashes,
/// else 1000 less 100 per distinct recent hash beyond the first; and the
/// mean of the four (each within 0..=1000) as self-consistency.
pub open spec fn coherence_of(arb: ArbitratedView, h: HierarchyView, ms: Seq<MetaView>, recent: Seq<Seq<char>>) -> SelfCoherenceMetric {
    let hc = clamp_int(1000 - (h.layers.len() - 1) * 120, 0, 1000);
    let cs = arb.conflict_gradients;
    let load = quot(interference_total(cs), max_int(cs.len() as int, 1));
    let pressure = negative_pulls(ms) * 40;
    let temporal = if recent.len() == 0 {
        800
    } else {
        clamp_int(1000 - max_int(recent.to_set().len() - 1, 0) * 100, 0, 1000)
    };
    let consistency = clamp_int(
        (hc + clamp_int(1000 - load, 0, 1000) + clamp_int(1000 - pressure, 0, 1000) + temporal) / 4,
        0,
        1000,
    );
    SelfCoherenceMetric {
        hierarchy_coherence: hc as i64,
        conflict_load: load as i64,
        revision_pressure: pressure as i64,
        temporal_stability: temporal as i64,
        self_consistency: consistency as i64,
    }
}

/// Measuring self-coherence overflows nowhere.
pub open spec fn coherence_fits(arb: ArbitratedView, h: HierarchyView, ms: Seq<MetaView>, recent: Seq<Seq<char>>) -> bool {
    let cs = arb.conflict_gradients;
    &&& h.layers.len() <= MAX_TEXTS
    &&& ms.len() <= MAX_TEXTS
    &&& recent.len() <= MAX_TEXTS
    &&& cs.len() <= MAX_TEXTS
    &&& forall|k: int| 0 <= k <= cs.len() ==> i64::MIN <= #[trigger] interference_total(cs.take(k)) <= i64::MAX
    &&& i64::MIN <= 1000 - quot(interference_total(cs), max_int(cs.len() as int, 1)) <= i64::MAX
}

fn negative_count(ms: &Vec<MetaPreferenceGradient>) -> (n: i64)
    requires
        ms@.len() <= MAX_TEXTS,
    ensures
        n == negative_pulls(meta_views(ms@)),
        0 <= n <= ms@.len(),
{
    let ghost mv = meta_views(ms@);
    let mut n: i64 = 0;
    let mut i: usize = 0;
    while i < ms.len()
        invariant
            mv == meta_views(ms@),
            mv.len() <= MAX_TEXTS,
            i <= mv.len(),
            n == negative_pulls(mv.take(i as int)),
            0 <= n <= i,
        decreases mv.len() - i,
    {
        proof {
            assert(mv.take(i + 1).drop_last() =~= mv.take(i as int));
            assert(mv.take(i + 1).last() == mv[i as int]);
        }
        if ms[i].net_meta_pull < 0 {
            n = n + 1;
        }
        i = i + 1;
    }
    assert(mv.take(mv.len() as int) =~= mv);
    n
}

/// The self-coherence of a goal structure (see `coherence_of`).
pub fn compute_self_coherence_metric(
    arbitrated: &ArbitratedIntentField,
    hierarchy: &GoalHierarchy,
    meta_gradients: &Vec<MetaPreferenceGradient>,
    recent_meta_hashes: &Vec<String>,
) -> (r: Result<SelfCoherenceMetric, InvariantViolation>)
    requires
        coherence_fits(arbitrated@, hierarchy@, meta_views(meta_gradients@), views(recent_meta_hashes@)),
    ensures
        r is Ok,
        r matches Ok(m) && m == coherence_of(arbitrated@, hierarchy@, meta_views(meta_gradients@), views(recent_meta_hashes@)),
{
    let depth = hierarchy.layers.len() as i64;
    let hierarchy_coherence = clamp_thousand(1000 - (depth - 1) * 120);
    let total = interference_sum_any(&arbitrated.conflict_gradients);
    let n: i64 = if arbitrated.conflict_gradients.len() > 1 {
        arbitrated.conflict_gradients.len() as i64
    } else {
        1
    };
    let conflict_load = if total >= 0 {
        total / n
    } else {
        -((-(total as i128)) / (n as i128)) as i64
    };
    let revision_pressure = negative_count(meta_gradients) * 40;
    let temporal_stability = if recent_meta_hashes.len() == 0 {
        800
    } else {
        let unique = distinct_sorted_texts(recent_meta_hashes);
        proof {
            crate::text::lemma_strictly_sorted_no_duplicates(views(unique@));
            views(recent_meta_hashes@).lemma_cardinality_of_set();
        }
        let extra: i64 = if unique.len() > 1 {
            (unique.len() as i64) - 1
        } else {
            0
        };
        clamp_thousand(1000 - extra * 100)
    };
    let self_consistency = clamp_thousand((hierarchy_coherence + clamp_thousand(1000 - conflict_load) + clamp_thousand(
        1000 - revision_pressure,
    ) + temporal_stability) / 4);
    Ok(
        SelfCoherenceMetric {
            hierarchy_coherence,
            conflict_load,
            revision_pressure,
            temporal_stability,
            self_consistency,
        },
    )
}

pub open spec fn meta_json(m: MetaView) -> Seq<char> {
    "{\"source_goal\":"@ + json_str(m.source_goal) + ",\"target_goal\":"@ + json_str(m.target_goal)
        + ",\"influence\":"@ + dec_int(m.influence as int) + ",\"coherence_delta\":"@ + dec_int(
        m.coherence_delta as int,
    ) + ",\"conflict_delta\":"@ + dec_int(m.conflict_delta as int) + ",\"net_meta_pull\":"@ + dec_int(
        m.net_meta_pull as int,
    ) + "}"@
}

pub open spec fn coherence_json(c: SelfCoherenceMetric) -> Seq<char> {
    "{\"hierarchy_coherence\":"@ + dec_int(c.hierarchy_coherence as int) + ",\"conflict_load\":"@ + dec_int(
        c.conflict_load as int,
    ) + ",\"revision_pressure\":"@ + dec_int(c.revision_pressure as int) + ",\"temporal_stability\":"@
        + dec_int(c.temporal_stability as int) + ",\"self_consistency\":"@ + dec_int(c.self_consistency as int)
        + "}"@
}

fn meta_json_text(m: &MetaPreferenceGradient) -> (r: String)
    ensures
        r@ == meta_json(m@),
{
    let mut out = String::new();
    out.append("{\"source_goal\":");
    push_json_str(&mut out, m.source_goal.as_str());
    out.append(",\"target_goal\":");
    push_json_str(&mut out, m.target_goal.as_str());
    out.append(",\"influence\":");
    push_i64(&mut out, m.influence);
    out.append(",\"coherence_delta\":");
    push_i64(&mut out, m.coherence_delta);
    out.append(",\"conflict_delta\":");
    push_i64(&mut out, m.conflict_delta);
    out.append(",\"net_meta_pull\":");
    push_i64(&mut out, m.net_meta_pull);
    out.append("}");
    out
}

fn coherence_json_text(c: &SelfCoherenceMetric) -> (r: String)
    ensures
        r@ == coherence_json(*c),
{
    let mut out = String::new();
    out.append("{\"hierarchy_coherence\":");
    push_i64(&mut out, c.hierarchy_coherence);
    out.append(",\"conflict_load\":");
    push_i64(&mut out, c.conflict_load);
    out.append(",\"revision_pressure\":");
    push_i64(&mut out, c.revision_pressure);
    out.append(",\"temporal_stability\":");
    push_i64(&mut out, c.temporal_stability);
    out.append(",\"self_consistency\":");
    push_i64(&mut out, c.self_consistency);
    out.append("}");
    out
}

fn metas_json_text(v: &Vec<MetaPreferenceGradient>) -> (r: String)
    ensures
        r@ == json_list(meta_views(v@).map_values(|m: MetaView| meta_json(m))),
{
    let ghost items = meta_views(v@).map_values(|m: MetaView| meta_json(m));
    let mut parts: Vec<String> = Vec::new();
    let mut i: usize = 0;
    while i < v.len()
        invariant
            i <= v@.len(),
            items == meta_views(v@).map_values(|m: MetaView| meta_json(m)),
            views(parts@) == items.take(i as int),
        decreases v@.len() - i,
    {
        let ghost before = parts@;
        parts.push(meta_json_text(&v[i]));
        proof {
            assert(views(parts@) =~= views(before).push(items[i as int]));
        }
        i = i + 1;
        assert(views(parts@) =~= items.take(i as int));
    }
    assert(items.take(v@.len() as int) =~= items);
    let mut out = String::new();
    push_json_list(&mut out, &parts);
    out
}


/// The targets of the negative meta pulls, in order.
pub open spec fn negative_targets(ms: Seq<MetaView>) -> Seq<Seq<char>>
    decreases ms.len(),
{
    if ms.len() == 0 {
        Seq::empty()
    } else {
        let rest = negative_targets(ms.drop_last());
        if ms.last().net_meta_pull < 0 { rest.push(ms.last().target_goal) } else { rest }
    }
}

/// The meta intent of an arbitration: its goal hierarchy, meta gradients and
/// self-coherence, and the goals to revise (the targets of negative meta
/// pulls, in text order).
pub open spec fn meta_field_of(arb: ArbitratedView, recent: Seq<Seq<char>>) -> MetaFieldView {
    let h = hierarchy_of(arb);
    let ms = meta_gradients_of(arb, h);
    let c = coherence_of(arb, h, ms, recent);
    let revision = listing(negative_targets(ms).to_set());
    MetaFieldView {
        hierarchy: h,
        meta_preference_gradients: ms,
        self_coherence: c,
        revision_candidates: revision,
        canonical_hash: json_hash(
            json_list(
                seq![
                    json_str(h.canonical_hash),
                    json_list(ms.map_values(|m: MetaView| meta_json(m))),
                    coherence_json(c),
                    json_strs(revision),
                    json_strs(recent),
                ],
            ),
        ),
    }
}

/// Building the meta intent overflows nowhere.
pub open spec fn meta_field_fits(arb: ArbitratedView, recent: Seq<Seq<char>>) -> bool {
    let h = hierarchy_of(arb);
    &&& meta_fits(arb, h)
    &&& coherence_fits(arb, h, meta_gradients_of(arb, h), recent)
}

/// The meta intent of an arbitration (see `meta_field_of`), with a
/// canonical hash over the hierarchy's hash, the meta gradients, the
/// coherence, the revision candidates and the recent hashes.
pub fn build_meta_intent_field(arbitrated: &ArbitratedIntentField, recent_meta_hashes: &Vec<String>) -> (r: Result<MetaIntentField, InvariantViolation>)
    requires
        meta_field_fits(arbitrated@, views(recent_meta_hashes@)),
    ensures
        r is Ok,
        r matches Ok(m) && m@ == meta_field_of(arbitrated@, views(recent_meta_hashes@)),
{
    let hierarchy = match build_goal_hierarchy(arbitrated) {
        Ok(h) => h,
        Err(e) => {
            return Err(e);
        },
    };
    let meta_preference_gradients = match compute_meta_preference_gradients(arbitrated, &hierarchy) {
        Ok(v) => v,
        Err(e) => {
            return Err(e);
        },
    };
    let self_coherence = match compute_self_coherence_metric(arbitrated, &hierarchy, &meta_preference_gradients, recent_meta_hashes) {
        Ok(c) => c,
        Err(e) => {
            return Err(e);
        },
    };
    let ghost mv = meta_views(meta_preference_gradients@);
    let mut targets: Vec<String> = Vec::new();
    let mut i: usize = 0;
    while i < meta_preference_gradients.len()
        invariant
            mv == meta_views(meta_preference_gradients@),
            i <= mv.len(),
            views(targets@) == negative_targets(mv.take(i as int)),
        decreases mv.len() - i,
    {
        proof {
            assert(mv.take(i + 1).drop_last() =~= mv.take(i as int));
            assert(mv.take(i + 1).last() == mv[i as int]);
        }
        if meta_preference_gradients[i].net_meta_pull < 0 {
            let ghost before = targets@;
            targets.push(meta_preference_gradients[i].target_goal.clone());
            proof {
                assert(views(targets@) =~= views(before).push(mv[i as int].target_goal));
            }
        }
        i = i + 1;
    }
    assert(mv.take(mv.len() as int) =~= mv);
    let revision_candidates = distinct_sorted_texts(&targets);
    proof {
        crate::text::lemma_listing(views(revision_candidates@));
    }
    let mut parts: Vec<String> = Vec::new();
    parts.push(crate::json::json_str_text(hierarchy.canonical_hash.as_str()));
    parts.push(metas_json_text(&meta_preference_gradients));
    parts.push(coherence_json_text(&self_coherence));
    parts.push(crate::json::json_strs_text(&revision_candidates));
    parts.push(crate::json::json_strs_text(recent_meta_hashes));
    let mut whole = String::new();
    push_json_list(&mut whole, &parts);
    proof {
        assert(views(parts@) =~= seq![
            json_str(hierarchy@.canonical_hash),
            json_list(mv.map_values(|m: MetaView| meta_json(m))),
            coherence_json(self_coherence),
            json_strs(views(revision_candidates@)),
            json_strs(views(recent_meta_hashes@)),
        ]);
    }
    let canonical_hash = json_hash_text(&whole);
    Ok(MetaIntentField { hierarchy, meta_preference_gradients, self_coherence, revision_candidates, canonical_hash })
}

/// The move chosen with meta intent: the move after arbitration, extended
/// by the hierarchy's top goal when it stays put elsewhere; the goals to
/// revise are the revision candidates, joined by the deferred goals when
/// self-consistency is under 600 (in text order).
pub open spec fn meta_trajectory_of(arb: ArbitratedView, pf: PotentialView, cur: Seq<char>, recent: Seq<Seq<char>>) -> MetaTrajectoryView {
    let base = resolved_of(arb, pf, cur);
    let meta = meta_field_of(arb, recent);
    let low = meta.self_coherence.self_consistency < 600;
    let revised = listing(
        meta.revision_candidates.to_set().union(if low { base.deferred_goals.to_set() } else { Set::empty() }),
    );
    let layers = meta.hierarchy.layers;
    let path = if base.selected_path.len() == 1 && layers.len() > 0 && layers[0].len() > 0 && layers[0][0]
        != base.selected_path[0] {
        base.selected_path.push(layers[0][0])
    } else {
        base.selected_path
    };
    MetaTrajectoryView {
        selected_path: path,
        revised_goals: revised,
        deferred_goals: base.deferred_goals,
        coherence_metric: meta.self_coherence,
        canonical_hash: json_hash(
            json_list(
                seq![
                    json_strs(path),
                    json_strs(revised),
                    json_strs(base.deferred_goals),
                    coherence_json(meta.self_coherence),
                    json_str(meta.canonical_hash),
                ],
            ),
        ),
    }
}

/// The move chosen with meta intent from `current_region` (see
/// `meta_trajectory_of`), with a canonical hash over the path, the revised
/// and deferred goals, the coherence and the meta intent's hash.
pub fn resolve_meta_intent_trajectory(
    arbitrated: &ArbitratedIntentField,
    potential_field: &CognitivePotentialField,
    current_region: &str,
    recent_meta_hashes: &Vec<String>,
) -> (r: Result<MetaIntentTrajectory, InvariantViolation>)
    requires
        resolution_fits(arbitrated@, potential_field@, current_region@),
        meta_field_fits(arbitrated@, views(recent_meta_hashes@)),
    ensures
        r is Ok,
        r matches Ok(t) && t@ == meta_trajectory_of(arbitrated@, potential_field@, current_region@, views(recent_meta_hashes@)),
{
    let base = match resolve_trajectory(arbitrated, potential_field, current_region) {
        Ok(b) => b,
        Err(e) => {
            return Err(e);
        },
    };
    let meta = match build_meta_intent_field(arbitrated, recent_meta_hashes) {
        Ok(m) => m,
        Err(e) => {
            return Err(e);
        },
    };
    let low = meta.self_coherence.self_consistency < 600;
    let mut pool = crate::text::copy_texts(&meta.revision_candidates);
    let ghost start = views(pool@);
    if low {
        let mut k: usize = 0;
        while k < base.deferred_goals.len()
            invariant
                k <= base.deferred_goals@.len(),
                views(pool@) == start + views(base.deferred_goals@).take(k as int),
            decreases base.deferred_goals@.len() - k,
        {
            let ghost before = pool@;
            pool.push(base.deferred_goals[k].clone());
            proof {
                assert(views(pool@) =~= views(before).push(views(base.deferred_goals@)[k as int]));
                assert(views(base.deferred_goals@).take(k + 1) =~= views(base.deferred_goals@).take(k as int).push(
                    views(base.deferred_goals@)[k as int],
                ));
            }
            k = k + 1;
        }
        assert(views(base.deferred_goals@).take(base.deferred_goals@.len() as int) =~= views(base.deferred_goals@));
        proof {
            crate::cognition::multiframe_flow::lemma_concat_to_set(start, views(base.deferred_goals@));
        }
    } else {
        proof {
            assert(views(pool@).to_set().union(Set::<Seq<char>>::empty()) =~= views(pool@).to_set());
        }
    }
    let revised_goals = distinct_sorted_texts(&pool);
    proof {
        crate::text::lemma_listing(views(revised_goals@));
    }
    let mut selected_path = crate::text::copy_texts(&base.selected_path);
    if selected_path.len() == 1 && meta.hierarchy.layers.len() > 0 && meta.hierarchy.layers[0].len() > 0 && !same_text(
        &meta.hierarchy.layers[0][0],
        &selected_path[0],
    ) {
        let root = meta.hierarchy.layers[0][0].clone();
        let ghost before = selected_path@;
        selected_path.push(root);
        proof {
            assert(views(selected_path@) =~= views(before).push(layer_views(meta.hierarchy.layers@)[0][0]));
        }
    }
    let mut parts: Vec<String> = Vec::new();
    parts.push(crate::json::json_strs_text(&selected_path));
    parts.push(crate::json::json_strs_text(&revised_goals));
    parts.push(crate::json::json_strs_text(&base.deferred_goals));
    parts.push(coherence_json_text(&meta.self_coherence));
    parts.push(crate::json::json_str_text(meta.canonical_hash.as_str()));
    let mut whole = String::new();
    push_json_list(&mut whole, &parts);
    let ghost expected = meta_trajectory_of(arbitrated@, potential_field@, current_region@, views(recent_meta_hashes@));
    proof {
        assert(views(selected_path@) =~= expected.selected_path);
        assert(views(parts@) =~= seq![
            json_strs(expected.selected_path),
            json_strs(views(revised_goals@)),
            json_strs(views(base.deferred_goals@)),
            coherence_json(meta.self_coherence),
            json_str(meta@.canonical_hash),
        ]);
    }
    let canonical_hash = json_hash_text(&whole);
    let deferred_goals = base.deferred_goals;
    Ok(MetaIntentTrajectory { selected_path, revised_goals, deferred_goals, coherence_metric: meta.self_coherence, canonical_hash })
}

} // verus!
