//! Laws of the multi-frame analytics: what the relational distance, the
//! evolution trace and the flow and energy fields satisfy for all inputs.
use vstd::prelude::*;
use crate::cognition::multiframe::ConsolidatedMemory;
use crate::cognition::multiframe_topology::{
    all_region_ids, appearances, drift_fits, drift_of, drift_total, emergent_ids, evolution_fits, evolution_of,
    id_count, jaccard_scaled, lemma_appearances_all, lemma_drift_total_prefix, lemma_id_count_contains,
    lemma_scaled_ratio_bounded, lemma_steps_len, persistent_ids, region_ids, relational_distance, step_of,
    steps_upto, transient_ids, AnchorRelationalDistance, TopologyView,
};
use crate::cognition::multiframe_flow::{
    all_regions, flow_of, ids_of, occurrences, predicted_ids, FlowFieldView, RegionFlowView,
};
use crate::cognition::multiframe_energy::{
    energy_of_flow, gradient_row, gradient_rows, lemma_ranked_contents, pair_gradient, potential_field_of,
    raw_potential, by_falling_gradient, by_potential, EnergyView, GradientView, action_of, candidates,
    efficiency, lemma_most_efficient_in, lemma_steepest_in, most_efficient, move_pool, potential_at, steepest,
    ActionView, Candidate, PotentialView, max_int, action_total, clamp_int, highest, trajectory_of, walk,
};
use crate::text::{lemma_listing_exists, listing, strictly_sorted_texts, text_lt, views};

verus! {

proof fn lemma_jaccard_laws(a: Seq<Seq<char>>, b: Seq<Seq<char>>)
    ensures
        jaccard_scaled(a, b, 1000) == jaccard_scaled(b, a, 1000),
        jaccard_scaled(a, a, 1000) == 0,
        0 <= jaccard_scaled(a, b, 1000) <= 1000,
{
    let sa = a.to_set();
    let sb = b.to_set();
    assert(sa.union(sb) =~= sb.union(sa));
    assert(sa.intersect(sb) =~= sb.intersect(sa));
    assert(sa.union(sa) =~= sa);
    assert(sa.intersect(sa) =~= sa);
    vstd::seq_lib::seq_to_set_is_finite(a);
    vstd::seq_lib::seq_to_set_is_finite(b);
    vstd::set_lib::lemma_set_union_finite_iff(sa, sb);
    vstd::set_lib::lemma_len_subset(sa.intersect(sb), sa.union(sb));
    if !(sa.len() == 0 && sb.len() == 0) {
        let u = sa.union(sb).len() as int;
        let i = sa.intersect(sb).len() as int;
        if sa.len() > 0 {
            vstd::set_lib::lemma_len_subset(sa, sa.union(sb));
        } else {
            vstd::set_lib::lemma_len_subset(sb, sa.union(sb));
        }
        lemma_scaled_ratio_bounded(u - i, u, 1000);
    }
}

/// The relational distance is symmetric, zero from a memory to itself, and
/// each of its components and its score lie between 0 and 1000.
pub proof fn lemma_relational_distance_laws(a: ConsolidatedMemory, b: ConsolidatedMemory)
    ensures
        relational_distance(a, b) == relational_distance(b, a),
        relational_distance(a, a) == (AnchorRelationalDistance {
            score: 0,
            anchor_jaccard_distance: 0,
            emergent_jaccard_distance: 0,
            continuity_delta: 0,
            external_delta: 0,
            ontology_delta: 0,
        }),
        ({
            let d = relational_distance(a, b);
            &&& 0 <= d.score <= 1000
            &&& 0 <= d.anchor_jaccard_distance <= 1000
            &&& 0 <= d.emergent_jaccard_distance <= 1000
            &&& 0 <= d.continuity_delta <= 1000
            &&& 0 <= d.external_delta <= 1000
            &&& 0 <= d.ontology_delta <= 1000
        }),
{
    lemma_jaccard_laws(views(a.anchor_basis_ids@), views(b.anchor_basis_ids@));
    lemma_jaccard_laws(emergent_ids(a), emergent_ids(b));
}

proof fn lemma_id_count_unique(ids: Seq<Seq<char>>, x: Seq<char>)
    requires
        ids.no_duplicates(),
    ensures
        id_count(ids, x) <= 1,
    decreases ids.len(),
{
    if ids.len() > 0 {
        let d = ids.drop_last();
        assert(d.no_duplicates()) by {
            assert forall|i: int, j: int| 0 <= i < d.len() && 0 <= j < d.len() && i != j implies d[i] != d[j] by {
                assert(d[i] == ids[i] && d[j] == ids[j]);
            }
        }
        lemma_id_count_unique(d, x);
        lemma_id_count_contains(d, x);
        if ids.last() == x && d.contains(x) {
            let k = choose|k: int| 0 <= k < d.len() && d[k] == x;
            assert(ids[k] == ids[ids.len() - 1]);
        }
    }
}

proof fn lemma_appearances_bound(snaps: Seq<TopologyView>, x: Seq<char>)
    requires
        forall|i: int| 0 <= i < snaps.len() ==> (#[trigger] region_ids(snaps[i])).no_duplicates(),
    ensures
        appearances(snaps, x) <= snaps.len(),
    decreases snaps.len(),
{
    if snaps.len() > 0 {
        let d = snaps.drop_last();
        assert forall|i: int| 0 <= i < d.len() implies (#[trigger] region_ids(d[i])).no_duplicates() by {
            assert(d[i] == snaps[i]);
        }
        lemma_appearances_bound(d, x);
        assert(region_ids(snaps.last()) == region_ids(snaps[snaps.len() - 1]));
        lemma_id_count_unique(region_ids(snaps.last()), x);
    }
}

/// How a trace follows its snapshots: without snapshots it has no steps, no
/// ids and stability 1000; otherwise one step into each later snapshot,
/// numbered from 1 and holding the drift from the snapshot before it. Its
/// stability lies between 0 and 1000, the persistent and transient ids never
/// overlap, and where region ids are unique within each snapshot every
/// region id seen is persistent or transient.
pub proof fn lemma_evolution_laws(snaps: Seq<TopologyView>, threshold: i64)
    requires
        evolution_fits(snaps, threshold),
    ensures
        ({
            let e = evolution_of(snaps, threshold);
            &&& snaps.len() == 0 ==> {
                &&& e.steps.len() == 0
                &&& e.persistent_region_ids.len() == 0
                &&& e.transient_region_ids.len() == 0
                &&& e.phase_transition_steps.len() == 0
                &&& e.overall_stability == 1000
            }
            &&& snaps.len() >= 1 ==> e.steps.len() == snaps.len() - 1
            &&& forall|k: int| 0 <= k < e.steps.len() ==> {
                &&& (#[trigger] e.steps[k]).step_index == (k + 1) as usize
                &&& e.steps[k].drift == drift_of(snaps[k], snaps[k + 1])
            }
            &&& 0 <= e.overall_stability <= 1000
        }),
        persistent_ids(snaps).disjoint(transient_ids(snaps)),
        (forall|i: int| 0 <= i < snaps.len() ==> (#[trigger] region_ids(snaps[i])).no_duplicates()) ==> forall|
            x: Seq<char>,
        |
            all_region_ids(snaps).contains(x) <==> #[trigger] persistent_ids(snaps).contains(x) || transient_ids(
                snaps,
            ).contains(x),
{
    let e = evolution_of(snaps, threshold);
    if snaps.len() == 0 {
        assert(e.steps.len() == 0);
    } else {
        let n = snaps.len() as int;
        lemma_steps_len(snaps, n, threshold);
        let steps = steps_upto(snaps, n, threshold);
        assert forall|m: int| 0 <= m < steps.len() implies (#[trigger] steps[m]).drift.drift_score >= 0 by {
            assert(steps[m] == step_of(snaps, m + 1, threshold));
            assert(drift_fits(snaps[m + 1 - 1], snaps[m + 1]));
        }
        lemma_drift_total_prefix(steps, steps.len() as int);
        assert(steps.take(steps.len() as int) =~= steps);
        if steps.len() > 0 {
            let t = drift_total(steps);
            let l = steps.len() as int;
            assert(t / l >= 0) by (nonlinear_arith)
                requires
                    t >= 0,
                    l >= 1,
            ;
        }
        assert forall|k: int| 0 <= k < e.steps.len() implies {
            &&& (#[trigger] e.steps[k]).step_index == (k + 1) as usize
            &&& e.steps[k].drift == drift_of(snaps[k], snaps[k + 1])
        } by {
            assert(e.steps == steps);
            assert(e.steps[k] == step_of(snaps, k + 1, threshold));
        }
    }
    if forall|i: int| 0 <= i < snaps.len() ==> (#[trigger] region_ids(snaps[i])).no_duplicates() {
        assert forall|x: Seq<char>| all_region_ids(snaps).contains(x) <==> #[trigger] persistent_ids(snaps).contains(x)
            || transient_ids(snaps).contains(x) by {
            lemma_appearances_all(snaps, x);
            lemma_id_count_contains(all_region_ids(snaps), x);
            lemma_appearances_bound(snaps, x);
            let a = appearances(snaps, x);
            assert(persistent_ids(snaps).contains(x) == (a > 0 && a == snaps.len()));
            assert(transient_ids(snaps).contains(x) == (0 < a && a < snaps.len()));
        }
    }
}

/// Whether a region vector is predicted stable.
pub open spec fn looks_stable(r: RegionFlowView) -> bool {
    r.persistence_score >= 750 && r.cohesion_trend >= 0
}

proof fn lemma_predicted_ids_contains(rvs: Seq<RegionFlowView>, stable: bool, x: Seq<char>)
    ensures
        predicted_ids(rvs, stable).contains(x) <==> exists|k: int|
            0 <= k < rvs.len() && (#[trigger] rvs[k]).region_id == x && looks_stable(rvs[k]) == stable,
    decreases rvs.len(),
{
    if rvs.len() > 0 {
        let d = rvs.drop_last();
        let last = rvs.last();
        lemma_predicted_ids_contains(d, stable, x);
        let rest = predicted_ids(d, stable);
        let p = predicted_ids(rvs, stable);
        let hit = looks_stable(last) == stable;
        assert(p == if hit { rest.push(last.region_id) } else { rest });
        if p.contains(x) {
            let j = choose|j: int| 0 <= j < p.len() && p[j] == x;
            if hit && j == rest.len() {
                assert(rvs[rvs.len() - 1] == last);
                assert(rvs[rvs.len() - 1].region_id == x && looks_stable(rvs[rvs.len() - 1]) == stable);
            } else {
                assert(rest[j] == x);
                assert(rest.contains(x));
                let k = choose|k: int| 0 <= k < d.len() && (#[trigger] d[k]).region_id == x && looks_stable(d[k]) == stable;
                assert(rvs[k] == d[k]);
            }
        }
        if exists|k: int| 0 <= k < rvs.len() && (#[trigger] rvs[k]).region_id == x && looks_stable(rvs[k]) == stable {
            let k = choose|k: int| 0 <= k < rvs.len() && (#[trigger] rvs[k]).region_id == x && looks_stable(rvs[k]) == stable;
            if k < d.len() {
                assert(d[k] == rvs[k]);
                assert(rest.contains(x));
                let j = choose|j: int| 0 <= j < rest.len() && rest[j] == x;
                assert(p[j] == x);
            } else {
                assert(rvs[k] == last);
                assert(p[p.len() - 1] == x);
            }
        }
    }
}

/// The flow of one or more snapshots has one region vector per region id
/// seen, in increasing id order; each vector's persistence is 1000 times
/// the number of regions with its id over the number of snapshots; the
/// predicted stable and transient ids are exactly the ids of the vectors
/// that look stable (persistence at least 750, cohesion not falling) and of
/// the others; with fewer than two snapshots there are no concept vectors
/// and no momentum, and otherwise the momentum is the drift score of the
/// last step.
pub proof fn lemma_flow_laws(snaps: Seq<TopologyView>, anchors: Seq<Seq<char>>)
    requires
        snaps.len() >= 1,
    ensures
        ({
            let f = flow_of(snaps, anchors);
            let rv = f.region_vectors;
            let n = snaps.len() as int;
            &&& forall|i: int, j: int| 0 <= i < j < rv.len() ==> text_lt(#[trigger] rv[i].region_id, #[trigger] rv[j].region_id)
            &&& forall|x: Seq<char>| #[trigger] ids_of(all_regions(snaps)).contains(x) <==> exists|k: int| 0 <= k < rv.len() && (#[trigger] rv[k]).region_id == x
            &&& forall|k: int| 0 <= k < rv.len() ==> (#[trigger] rv[k]).persistence_score == (occurrences(all_regions(snaps), rv[k].region_id) * 1000 / n) as i64
            &&& forall|x: Seq<char>| #[trigger] f.prediction.predicted_stable_region_ids.contains(x) <==> exists|k: int|
                0 <= k < rv.len() && (#[trigger] rv[k]).region_id == x && looks_stable(rv[k])
            &&& forall|x: Seq<char>| #[trigger] f.prediction.predicted_transient_region_ids.contains(x) <==> exists|k: int|
                0 <= k < rv.len() && (#[trigger] rv[k]).region_id == x && !looks_stable(rv[k])
            &&& n < 2 ==> f.concept_vectors.len() == 0 && f.prediction.momentum == 0
            &&& n >= 2 ==> f.prediction.momentum == drift_of(snaps[n - 2], snaps[n - 1]).drift_score
        }),
{
    let f = flow_of(snaps, anchors);
    let rv = f.region_vectors;
    let all = ids_of(all_regions(snaps));
    vstd::seq_lib::seq_to_set_is_finite(all);
    lemma_listing_exists(all.to_set());
    let ids = listing(all.to_set());
    assert(rv.len() == ids.len());
    assert forall|k: int| 0 <= k < rv.len() implies (#[trigger] rv[k]).region_id == ids[k] by {}
    assert forall|i: int, j: int| 0 <= i < j < rv.len() implies text_lt(#[trigger] rv[i].region_id, #[trigger] rv[j].region_id) by {
        assert(rv[i].region_id == ids[i] && rv[j].region_id == ids[j]);
    }
    assert forall|x: Seq<char>| #[trigger] all.contains(x) <==> exists|k: int| 0 <= k < rv.len() && (#[trigger] rv[k]).region_id == x by {
        assert(all.contains(x) <==> all.to_set().contains(x));
        if all.contains(x) {
            assert(ids.to_set().contains(x));
            let k = choose|k: int| 0 <= k < ids.len() && ids[k] == x;
            assert(rv[k].region_id == x);
        }
        if exists|k: int| 0 <= k < rv.len() && (#[trigger] rv[k]).region_id == x {
            let k = choose|k: int| 0 <= k < rv.len() && (#[trigger] rv[k]).region_id == x;
            assert(ids[k] == x);
            assert(ids.contains(x));
        }
    }
    assert forall|x: Seq<char>| #[trigger] f.prediction.predicted_stable_region_ids.contains(x) <==> exists|k: int|
        0 <= k < rv.len() && (#[trigger] rv[k]).region_id == x && looks_stable(rv[k]) by {
        lemma_predicted_ids_contains(rv, true, x);
    }
    assert forall|x: Seq<char>| #[trigger] f.prediction.predicted_transient_region_ids.contains(x) <==> exists|k: int|
        0 <= k < rv.len() && (#[trigger] rv[k]).region_id == x && !looks_stable(rv[k]) by {
        lemma_predicted_ids_contains(rv, false, x);
    }
}

/// `g` is the gradient from entry `a` to a different entry `b` of `es`.
pub open spec fn is_pair_gradient(g: GradientView, es: Seq<EnergyView>) -> bool {
    exists|a: int, b: int| 0 <= a < es.len() && 0 <= b < es.len() && a != b && g == pair_gradient(es[a], es[b])
}

proof fn lemma_gradient_row(es: Seq<EnergyView>, i: int, j: int)
    requires
        0 <= i < es.len(),
        0 <= j <= es.len(),
    ensures
        gradient_row(es, i, j).len() == j - (if i < j { 1int } else { 0int }),
        forall|k: int| 0 <= k < gradient_row(es, i, j).len() ==> is_pair_gradient(#[trigger] gradient_row(es, i, j)[k], es),
    decreases j,
{
    if j > 0 {
        lemma_gradient_row(es, i, j - 1);
        let rest = gradient_row(es, i, j - 1);
        let row = gradient_row(es, i, j);
        assert forall|k: int| 0 <= k < row.len() implies is_pair_gradient(#[trigger] row[k], es) by {
            if k < rest.len() {
                assert(row[k] == rest[k]);
            } else {
                assert(row[k] == pair_gradient(es[i], es[j - 1]));
                assert(i != j - 1);
            }
        }
    }
}

proof fn lemma_gradient_rows(es: Seq<EnergyView>, i: int)
    requires
        0 <= i <= es.len(),
        es.len() >= 1,
    ensures
        gradient_rows(es, i).len() == i * (es.len() - 1),
        forall|k: int| 0 <= k < gradient_rows(es, i).len() ==> is_pair_gradient(#[trigger] gradient_rows(es, i)[k], es),
    decreases i,
{
    if i > 0 {
        lemma_gradient_rows(es, i - 1);
        lemma_gradient_row(es, i - 1, es.len() as int);
        let a = gradient_rows(es, i - 1);
        let b = gradient_row(es, i - 1, es.len() as int);
        let all = gradient_rows(es, i);
        assert(all == a + b);
        assert(all.len() == i * (es.len() - 1)) by (nonlinear_arith)
            requires
                all.len() == a.len() + b.len(),
                a.len() == (i - 1) * (es.len() - 1),
                b.len() == es.len() - 1,
        ;
        assert forall|k: int| 0 <= k < all.len() implies is_pair_gradient(#[trigger] all[k], es) by {
            if k < a.len() {
                assert(all[k] == a[k]);
            } else {
                assert(all[k] == b[k - a.len()]);
            }
        }
    } else {
        assert(i * (es.len() - 1) == 0) by (nonlinear_arith)
            requires
                i == 0,
        ;
    }
}

/// The potential field has one energy entry per region vector, each the
/// entry of one of them and with a potential between 0 and 4000; a gradient
/// for each ordered pair of distinct entries, n·(n−1) in all, each the
/// potential difference of its source and target with a traversal cost of
/// its size plus 50; and its global minimum is the first entry, or "" at
/// 500 without entries.
pub proof fn lemma_potential_laws(flow: FlowFieldView)
    ensures
        ({
            let pf = potential_field_of(flow);
            let rv = flow.region_vectors;
            let es = pf.stability_energies;
            let n = rv.len() as int;
            &&& es.len() == n
            &&& forall|k: int| 0 <= k < n ==> rv.map_values(|r: RegionFlowView| energy_of_flow(r)).contains(#[trigger] es[k])
            &&& forall|k: int| 0 <= k < n ==> 0 <= (#[trigger] es[k]).potential <= 4000
            &&& pf.gradients.len() == n * (n - 1)
            &&& forall|k: int| 0 <= k < pf.gradients.len() ==> is_pair_gradient(#[trigger] pf.gradients[k], es)
            &&& forall|k: int| 0 <= k < pf.gradients.len() ==> {
                let g = #[trigger] pf.gradients[k];
                exists|a: int, b: int| 0 <= a < n && 0 <= b < n && a != b && {
                    &&& g.source_region == es[a].region_id
                    &&& g.target_region == es[b].region_id
                    &&& g.gradient == es[a].potential - es[b].potential
                    &&& g.traversal_cost == abs_i(g.gradient as int) + 50
                }
            }
            &&& n > 0 ==> pf.global_minimum_region == es[0].region_id && pf.global_minimum_energy == es[0].potential
            &&& n == 0 ==> pf.global_minimum_region == Seq::<char>::empty() && pf.global_minimum_energy == 500
        }),
{
    let pf = potential_field_of(flow);
    let rv = flow.region_vectors;
    let all = rv.map_values(|r: RegionFlowView| energy_of_flow(r));
    lemma_ranked_contents(all, by_potential());
    let es = pf.stability_energies;
    let n = rv.len() as int;
    assert forall|k: int| 0 <= k < n implies all.contains(#[trigger] es[k]) && 0 <= es[k].potential <= 4000 by {
        assert(es.contains(es[k]));
        let j = choose|j: int| 0 <= j < all.len() && all[j] == es[k];
        assert(all[j] == energy_of_flow(rv[j]));
    }
    if n >= 1 {
        lemma_gradient_rows(es, n);
        let rows = gradient_rows(es, n);
        lemma_ranked_contents(rows, by_falling_gradient());
        assert forall|k: int| 0 <= k < pf.gradients.len() implies is_pair_gradient(#[trigger] pf.gradients[k], es) by {
            assert(pf.gradients.contains(pf.gradients[k]));
            let j = choose|j: int| 0 <= j < rows.len() && rows[j] == pf.gradients[k];
        }
        assert forall|k: int| 0 <= k < pf.gradients.len() implies {
            let g = #[trigger] pf.gradients[k];
            exists|a: int, b: int| 0 <= a < n && 0 <= b < n && a != b && {
                &&& g.source_region == es[a].region_id
                &&& g.target_region == es[b].region_id
                &&& g.gradient == es[a].potential - es[b].potential
                &&& g.traversal_cost == abs_i(g.gradient as int) + 50
            }
        } by {
            let g = pf.gradients[k];
            assert(pf.gradients.contains(g));
            let j = choose|j: int| 0 <= j < rows.len() && rows[j] == g;
            assert(is_pair_gradient(rows[j], es));
            let (a, b) = choose|a: int, b: int| 0 <= a < es.len() && 0 <= b < es.len() && a != b && rows[j] == pair_gradient(es[a], es[b]);
            assert(0 <= es[a].potential <= 4000 && 0 <= es[b].potential <= 4000);
        }
    } else {
        assert(gradient_rows(es, 0).len() == 0);
        lemma_ranked_contents(gradient_rows(es, 0), by_falling_gradient());
    }
}

pub open spec fn abs_i(x: int) -> int {
    if x < 0 { -x } else { x }
}

/// Whether a potential change qualifies as a preferred move (a drop of at
/// least 12) or, otherwise, as a lesser one (a smaller drop).
pub open spec fn qualifies(delta: int, preferred: bool) -> bool {
    (preferred && delta <= -12) || (!preferred && -12 < delta < 0)
}

/// `c` is the move along gradient `g` out of `cur`.
pub open spec fn move_along(
    c: Candidate,
    g: GradientView,
    es: Seq<EnergyView>,
    cur: Seq<char>,
    cur_e: int,
    preferred: bool,
) -> bool {
    &&& g.source_region == cur
    &&& c.target == g.target_region
    &&& c.cost == g.traversal_cost
    &&& c.delta == potential_at(es, c.target, cur_e) - cur_e
    &&& qualifies(c.delta, preferred)
}

proof fn lemma_candidate_source(
    gs: Seq<GradientView>,
    es: Seq<EnergyView>,
    cur: Seq<char>,
    cur_e: int,
    preferred: bool,
    m: int,
) -> (k: int)
    requires
        0 <= m < candidates(gs, es, cur, cur_e, preferred).len(),
    ensures
        0 <= k < gs.len(),
        move_along(candidates(gs, es, cur, cur_e, preferred)[m], gs[k], es, cur, cur_e, preferred),
    decreases gs.len(),
{
    let d = gs.drop_last();
    let rest = candidates(d, es, cur, cur_e, preferred);
    let all = candidates(gs, es, cur, cur_e, preferred);
    if m < rest.len() {
        assert(all[m] == rest[m]);
        let k = lemma_candidate_source(d, es, cur, cur_e, preferred, m);
        assert(gs[k] == d[k]);
        k
    } else {
        let g = gs.last();
        let c = Candidate {
            target: g.target_region,
            delta: potential_at(es, g.target_region, cur_e) - cur_e,
            cost: g.traversal_cost as int,
            gain: max_int(g.gradient as int, 0),
        };
        assert(all == rest.push(c));
        assert(gs[gs.len() - 1] == g);
        gs.len() - 1
    }
}

proof fn lemma_candidates_exist(gs: Seq<GradientView>, es: Seq<EnergyView>, cur: Seq<char>, cur_e: int, preferred: bool, k: int)
    requires
        0 <= k < gs.len(),
        gs[k].source_region == cur,
        qualifies(potential_at(es, gs[k].target_region, cur_e) - cur_e, preferred),
    ensures
        candidates(gs, es, cur, cur_e, preferred).len() > 0,
    decreases gs.len(),
{
    let d = gs.drop_last();
    if k < d.len() {
        assert(d[k] == gs[k]);
        lemma_candidates_exist(d, es, cur, cur_e, preferred, k);
    } else {
        assert(gs.last() == gs[k]);
    }
}

/// Choosing a move from `cur` (with every traversal cost non-negative):
/// the trajectory is one region; without a gradient from `cur` to a region
/// of lower potential it stays at `cur` with cost 0, gain 0 and confidence
/// 800; otherwise it moves along a gradient from `cur` to a lower region,
/// paying that gradient's traversal cost, with a confidence between 0 and
/// 1000; and where some gradient drops by 12 or more, so does the move.
pub proof fn lemma_action_laws(pf: PotentialView, cur: Seq<char>, aggressive: bool)
    requires
        forall|k: int| 0 <= k < pf.gradients.len() ==> (#[trigger] pf.gradients[k]).traversal_cost >= 0,
    ensures
        ({
            let a = action_of(pf, cur, aggressive);
            let es = pf.stability_energies;
            let gs = pf.gradients;
            let cur_e = potential_at(es, cur, 1000);
            &&& a.preferred_trajectory.len() == 1
            &&& (forall|k: int| 0 <= k < gs.len() && (#[trigger] gs[k]).source_region == cur ==> potential_at(
                es,
                gs[k].target_region,
                cur_e,
            ) >= cur_e) ==> a == (ActionView {
                preferred_trajectory: seq![cur],
                energy_cost: 0,
                stability_gain: 0,
                confidence: 800,
            })
            &&& (exists|k: int| 0 <= k < gs.len() && (#[trigger] gs[k]).source_region == cur && potential_at(
                es,
                gs[k].target_region,
                cur_e,
            ) < cur_e) ==> {
                &&& exists|k: int| 0 <= k < gs.len() && (#[trigger] gs[k]).source_region == cur
                    && gs[k].target_region == a.preferred_trajectory[0] && a.energy_cost == gs[k].traversal_cost
                &&& potential_at(es, a.preferred_trajectory[0], cur_e) < cur_e
                &&& 0 <= a.confidence <= 1000
            }
            &&& (exists|k: int| 0 <= k < gs.len() && (#[trigger] gs[k]).source_region == cur && potential_at(
                es,
                gs[k].target_region,
                cur_e,
            ) <= cur_e - 12) ==> potential_at(es, a.preferred_trajectory[0], cur_e) <= cur_e - 12
        }),
{
    let es = pf.stability_energies;
    let gs = pf.gradients;
    let cur_e = potential_at(es, cur, 1000);
    let pref = candidates(gs, es, cur, cur_e, true);
    let pool = move_pool(pf, cur);
    if exists|k: int| 0 <= k < gs.len() && (#[trigger] gs[k]).source_region == cur && potential_at(es, gs[k].target_region, cur_e) < cur_e {
        let k = choose|k: int| 0 <= k < gs.len() && (#[trigger] gs[k]).source_region == cur && potential_at(es, gs[k].target_region, cur_e) < cur_e;
        let dl = potential_at(es, gs[k].target_region, cur_e) - cur_e;
        if dl <= -12 {
            lemma_candidates_exist(gs, es, cur, cur_e, true, k);
        } else {
            lemma_candidates_exist(gs, es, cur, cur_e, false, k);
        }
        assert(pool.len() > 0);
    }
    if exists|k: int| 0 <= k < gs.len() && (#[trigger] gs[k]).source_region == cur && potential_at(es, gs[k].target_region, cur_e) <= cur_e - 12 {
        let k = choose|k: int| 0 <= k < gs.len() && (#[trigger] gs[k]).source_region == cur && potential_at(es, gs[k].target_region, cur_e) <= cur_e - 12;
        lemma_candidates_exist(gs, es, cur, cur_e, true, k);
    }
    if pool.len() > 0 {
        lemma_steepest_in(pool);
        lemma_most_efficient_in(pool);
        let c = if aggressive { steepest(pool) } else { most_efficient(pool) };
        let m = choose|m: int| 0 <= m < pool.len() && pool[m] == c;
        let preferred = pref.len() > 0;
        assert(pool == candidates(gs, es, cur, cur_e, preferred));
        assert(candidates(gs, es, cur, cur_e, preferred)[m] == c);
        let k = lemma_candidate_source(gs, es, cur, cur_e, preferred, m);
        assert(c.cost >= 0);
        let num = (if -c.delta > 0 { -c.delta } else { 0 }) * 1000;
        assert(num / (c.cost + 1) >= 0) by (nonlinear_arith)
            requires
                num >= 0,
                c.cost + 1 >= 1,
        ;
        assert(efficiency(c) >= 0);
        assert(action_of(pf, cur, aggressive).preferred_trajectory[0] == c.target);
        assert(gs[k].source_region == cur && gs[k].target_region == c.target && c.cost == gs[k].traversal_cost);
    } else {
        assert forall|k: int| 0 <= k < gs.len() && (#[trigger] gs[k]).source_region == cur implies potential_at(
            es,
            gs[k].target_region,
            cur_e,
        ) >= cur_e by {
            if potential_at(es, gs[k].target_region, cur_e) < cur_e {
                if potential_at(es, gs[k].target_region, cur_e) - cur_e <= -12 {
                    lemma_candidates_exist(gs, es, cur, cur_e, true, k);
                } else {
                    lemma_candidates_exist(gs, es, cur, cur_e, false, k);
                }
            }
        }
    }
}

proof fn lemma_action_cost(pf: PotentialView, cur: Seq<char>, aggressive: bool)
    requires
        forall|k: int| 0 <= k < pf.gradients.len() ==> 0 <= (#[trigger] pf.gradients[k]).traversal_cost <= 4050,
    ensures
        0 <= action_of(pf, cur, aggressive).energy_cost <= 4050,
        action_of(pf, cur, aggressive).preferred_trajectory.len() == 1,
{
    let es = pf.stability_energies;
    let gs = pf.gradients;
    let cur_e = potential_at(es, cur, 1000);
    let pool = move_pool(pf, cur);
    if pool.len() > 0 {
        lemma_steepest_in(pool);
        lemma_most_efficient_in(pool);
        let c = if aggressive { steepest(pool) } else { most_efficient(pool) };
        let m = choose|m: int| 0 <= m < pool.len() && pool[m] == c;
        let preferred = candidates(gs, es, cur, cur_e, true).len() > 0;
        assert(pool == candidates(gs, es, cur, cur_e, preferred));
        let k = lemma_candidate_source(gs, es, cur, cur_e, preferred, m);
        assert(c.cost == gs[k].traversal_cost);
    }
}

proof fn lemma_walk(pf: PotentialView, cur: Seq<char>, step: int, max_steps: int, spike: bool)
    requires
        forall|k: int| 0 <= k < pf.gradients.len() ==> 0 <= (#[trigger] pf.gradients[k]).traversal_cost <= 4050,
    ensures
        walk(pf, cur, step, max_steps, spike).len() <= if max_steps > step { max_steps - step } else { 0 },
        0 <= action_total(walk(pf, cur, step, max_steps, spike)) <= 4050 * walk(pf, cur, step, max_steps, spike).len(),
    decreases max_steps - step,
{
    let w = walk(pf, cur, step, max_steps, spike);
    if step < max_steps {
        let a = action_of(pf, cur, spike && step < 2);
        lemma_action_cost(pf, cur, spike && step < 2);
        let next = a.preferred_trajectory[0];
        if next == cur || next == pf.global_minimum_region {
            assert(w == seq![a]);
            assert(w.drop_last() =~= Seq::<ActionView>::empty());
            assert(action_total(w.drop_last()) == 0);
            assert(w.last() == a);
        } else {
            lemma_walk(pf, next, step + 1, max_steps, spike);
            let rest = walk(pf, next, step + 1, max_steps, spike);
            assert(w == seq![a] + rest);
            lemma_action_total_front(a, rest);
        }
    } else {
        assert(w.len() == 0);
        assert(action_total(w) == 0);
    }
}

proof fn lemma_action_total_front(a: ActionView, rest: Seq<ActionView>)
    ensures
        action_total(seq![a] + rest) == a.energy_cost + action_total(rest),
    decreases rest.len(),
{
    let w = seq![a] + rest;
    if rest.len() == 0 {
        assert(w =~= seq![a]);
        assert(w.drop_last() =~= Seq::<ActionView>::empty());
        assert(action_total(w.drop_last()) == 0);
        assert(w.last() == a);
        assert(action_total(rest) == 0);
    } else {
        lemma_action_total_front(a, rest.drop_last());
        assert(w.drop_last() =~= seq![a] + rest.drop_last());
        assert(w.last() == rest.last());
    }
}

/// The trajectory down the potential of a flow field: no moves and no cost
/// without snapshots; at most as many moves as regions, and never more than
/// 4 (at least one move is allowed); its total cost is the sum of the
/// moves' costs; and it converges exactly when the flow does and that total
/// is under 500.
pub proof fn lemma_trajectory_laws(snapshot_count: nat, flow: FlowFieldView, anchors: Seq<Seq<char>>)
    ensures
        ({
            let t = trajectory_of(snapshot_count, flow, anchors);
            &&& snapshot_count == 0 ==> t.actions.len() == 0 && t.total_energy_cost == 0
            &&& t.actions.len() <= clamp_int(flow.region_vectors.len() as int, 1, 4)
            &&& t.total_energy_cost == action_total(t.actions)
            &&& t.convergent_outcome == (flow.prediction.convergent && t.total_energy_cost < 500)
        }),
{
    let pf = potential_field_of(flow);
    lemma_potential_laws(flow);
    let gs = pf.gradients;
    let es = pf.stability_energies;
    assert forall|k: int| 0 <= k < gs.len() implies 0 <= (#[trigger] gs[k]).traversal_cost <= 4050 by {
        let g = gs[k];
        let (a, b) = choose|a: int, b: int| 0 <= a < es.len() && 0 <= b < es.len() && a != b && {
            &&& g.source_region == es[a].region_id
            &&& g.target_region == es[b].region_id
            &&& g.gradient == es[a].potential - es[b].potential
            &&& g.traversal_cost == abs_i(g.gradient as int) + 50
        };
        assert(0 <= es[a].potential <= 4000 && 0 <= es[b].potential <= 4000);
    }
    if snapshot_count > 0 {
        let start = match highest(es) {
            Some(e) => e.region_id,
            None => Seq::empty(),
        };
        let max_steps = clamp_int(es.len() as int, 1, 4);
        lemma_walk(pf, start, 0, max_steps, flow.prediction.momentum >= 100);
    } else {
        assert(action_total(Seq::<ActionView>::empty()) == 0);
    }
}

} // verus!
