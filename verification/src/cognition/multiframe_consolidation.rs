//! The steps of a multi-frame iteration that combine what the frames hold:
//! cross-frame fusion and conflict counting, resonance propagation and
//! anchor-guided fusion of the fused constraints, active anchor energies
//! and anchor continuity, the registered anchor registry, emergent
//! constraints and concepts, and the stable sense of each subject by
//! majority over the frames' resolved selections.
use vstd::prelude::*;
use crate::cognition::constraint::{constraint_key, opt_view, ConstraintKind, SemanticConstraint};
use crate::cognition::evaluator::{constraint_concept, insert_sorted, same_key, sort_constraints, stable_sorted};
use crate::geom::field::{sorted_keys, FieldEntries, FieldPoint, SemanticField};
use crate::cognition::multiframe::{
    AnchorRegistry, ConceptAnchor, EmergentConcept, FrameIterationResult, StableSense,
};
use crate::geom::invariants::InvariantViolation;
use crate::json::{json_hash, json_hash_text, json_list, json_str, json_str_text, json_strs, json_strs_text, push_json_list};
use crate::text::{copy_texts, dec_int, dec_nat, lemma_insert_ordered_at, ordered, push_i64, push_usize};
use crate::text::{
    distinct_sorted_texts, lemma_text_lt_total, lemma_text_lt_transitive, less_than, same_text,
    strictly_sorted_texts, text_le, text_lt, views, push_str, lemma_text_lt_irreflexive,
};

verus! {

/// A concept that may emerge: a cluster of a subject's concepts supported by
/// its active anchors.
#[derive(Debug, Clone, PartialEq, Eq)]
pub struct EmergentConceptCandidate {
    pub id: String,
    pub subject: String,
    pub basis_anchors: Vec<String>,
    pub members: Vec<String>,
    pub resonance_score: i64,
}

// ── model ────────────────────────────────────────────────────────────────────

/// The votes of one frame's selections, in order: a (subject, concept) pair
/// for each selection that is resolved.
pub open spec fn resolved_votes(sel: Seq<(String, String, bool, i64)>) -> Seq<(Seq<char>, Seq<char>)>
    decreases sel.len(),
{
    if sel.len() == 0 {
        Seq::empty()
    } else {
        let rest = resolved_votes(sel.drop_last());
        let last = sel.last();
        if last.2 {
            rest
        } else {
            rest.push((last.0@, last.1@))
        }
    }
}

/// The votes of all frames, frame by frame.
pub open spec fn sense_votes(frames: Seq<FrameIterationResult>) -> Seq<(Seq<char>, Seq<char>)>
    decreases frames.len(),
{
    if frames.len() == 0 {
        Seq::empty()
    } else {
        sense_votes(frames.drop_last()) + resolved_votes(frames.last().selected_senses@)
    }
}

/// How many votes name `concept` for `subject`.
pub open spec fn vote_count(votes: Seq<(Seq<char>, Seq<char>)>, subject: Seq<char>, concept: Seq<char>) -> nat {
    votes.to_multiset().count((subject, concept))
}

/// The subjects that received a vote.
pub open spec fn voted_subjects(votes: Seq<(Seq<char>, Seq<char>)>) -> Set<Seq<char>> {
    votes.map_values(|v: (Seq<char>, Seq<char>)| v.0).to_set()
}

/// `s` is the stable sense of its subject: the concept with the most votes
/// (ties to the concept first in text order), and that number of votes.
pub open spec fn is_stable_sense(votes: Seq<(Seq<char>, Seq<char>)>, s: StableSense) -> bool {
    &&& s.support_frames > 0
    &&& s.support_frames == vote_count(votes, s.subject@, s.selected_concept@)
    &&& forall|c: Seq<char>|
        #[trigger] vote_count(votes, s.subject@, c) < s.support_frames || (vote_count(
            votes,
            s.subject@,
            c,
        ) == s.support_frames && text_le()(s.selected_concept@, c))
}

pub open spec fn sense_subjects(out: Seq<StableSense>) -> Seq<Seq<char>> {
    out.map_values(|s: StableSense| s.subject@)
}

/// Two parallel vectors of texts read as (subject, concept) pairs.
pub open spec fn pair_view(subs: Seq<String>, cons: Seq<String>) -> Seq<(Seq<char>, Seq<char>)> {
    Seq::new(subs.len(), |k: int| (subs[k]@, cons[k]@))
}

/// The constraints of all frames, frame by frame.
pub open spec fn frame_constraints(by_frame: Seq<Vec<SemanticConstraint>>) -> Seq<SemanticConstraint>
    decreases by_frame.len(),
{
    if by_frame.len() == 0 {
        Seq::empty()
    } else {
        frame_constraints(by_frame.drop_last()) + by_frame.last()@
    }
}

/// Some constraint with key `k` has polarity `affirmed`.
pub open spec fn key_has_polarity(
    cs: Seq<SemanticConstraint>,
    k: (Seq<char>, Seq<char>, Option<Seq<char>>),
    affirmed: bool,
) -> bool {
    exists|i: int| 0 <= i < cs.len() && constraint_key(#[trigger] cs[i]) == k && cs[i].affirmed == affirmed
}

/// The keys (subject, predicate, object) that are both affirmed and negated.
pub open spec fn conflict_keys(cs: Seq<SemanticConstraint>) -> Set<(Seq<char>, Seq<char>, Option<Seq<char>>)> {
    Set::new(
        |k: (Seq<char>, Seq<char>, Option<Seq<char>>)|
            key_has_polarity(cs, k, true) && key_has_polarity(cs, k, false),
    )
}

/// The conflicting keys among those of the first `j` constraints.
pub open spec fn conflict_keys_before(cs: Seq<SemanticConstraint>, j: int) -> Set<
    (Seq<char>, Seq<char>, Option<Seq<char>>),
> {
    Set::new(
        |k: (Seq<char>, Seq<char>, Option<Seq<char>>)|
            conflict_keys(cs).contains(k) && exists|i: int|
                0 <= i < j && constraint_key(#[trigger] cs[i]) == k,
    )
}

/// What identifies a constraint when constraints are merged: its key and
/// its polarity.
pub open spec fn polar_key(c: SemanticConstraint) -> (Seq<char>, Seq<char>, Option<Seq<char>>, bool) {
    (c.subject@, c.predicate@, opt_view(c.object), c.affirmed)
}

/// Some constraint of `s` has the key and polarity of `c`.
pub open spec fn has_polar_key(s: Seq<SemanticConstraint>, c: SemanticConstraint) -> bool {
    exists|q: int| 0 <= q < s.len() && polar_key(#[trigger] s[q]) == polar_key(c)
}

/// The additions that bring a new key and polarity, in order: each one
/// whose key and polarity neither `base` nor an earlier kept addition has.
pub open spec fn missing_additions(base: Seq<SemanticConstraint>, adds: Seq<SemanticConstraint>) -> Seq<
    SemanticConstraint,
>
    decreases adds.len(),
{
    if adds.len() == 0 {
        Seq::empty()
    } else {
        let prev = missing_additions(base, adds.drop_last());
        if has_polar_key(base + prev, adds.last()) {
            prev
        } else {
            prev.push(adds.last())
        }
    }
}

/// The total weight of the constraints with key `k` and polarity `affirmed`.
pub open spec fn polar_weight(
    cs: Seq<SemanticConstraint>,
    k: (Seq<char>, Seq<char>, Option<Seq<char>>),
    affirmed: bool,
) -> nat
    decreases cs.len(),
{
    if cs.len() == 0 {
        0
    } else {
        let c = cs.last();
        polar_weight(cs.drop_last(), k, affirmed) + if constraint_key(c) == k && c.affirmed == affirmed {
            c.weight as nat
        } else {
            0
        }
    }
}

/// The polarity the frames settle on for key `k`: affirmed unless the
/// negated weight is larger.
pub open spec fn fused_polarity(cs: Seq<SemanticConstraint>, k: (Seq<char>, Seq<char>, Option<Seq<char>>)) -> bool {
    polar_weight(cs, k, true) >= polar_weight(cs, k, false)
}

/// `cs[i]` carries the settled polarity of its key `k`, has the largest
/// weight among those that do, and comes first among those of that weight.
pub open spec fn is_fusion_pick(
    cs: Seq<SemanticConstraint>,
    k: (Seq<char>, Seq<char>, Option<Seq<char>>),
    i: int,
) -> bool {
    &&& 0 <= i < cs.len()
    &&& constraint_key(cs[i]) == k
    &&& cs[i].affirmed == fused_polarity(cs, k)
    &&& forall|j: int|
        0 <= j < cs.len() && constraint_key(#[trigger] cs[j]) == k && cs[j].affirmed == fused_polarity(cs, k)
            ==> cs[j].weight <= cs[i].weight
    &&& forall|j: int|
        0 <= j < i && constraint_key(#[trigger] cs[j]) == k && cs[j].affirmed == fused_polarity(cs, k)
            ==> cs[j].weight < cs[i].weight
}

/// The fused constraint of key `k`: the pick, carrying the settled
/// polarity's total weight, capped at 255.
pub open spec fn fused_of(cs: Seq<SemanticConstraint>, k: (Seq<char>, Seq<char>, Option<Seq<char>>)) -> SemanticConstraint {
    let i = choose|i: int| is_fusion_pick(cs, k, i);
    let merged = polar_weight(cs, k, fused_polarity(cs, k));
    SemanticConstraint { weight: if merged > 255 { 255u8 } else { merged as u8 }, ..cs[i] }
}

/// `cs[j]` is the first constraint of its key.
pub open spec fn first_of_key(cs: Seq<SemanticConstraint>, j: int) -> bool {
    forall|q: int| 0 <= q < j ==> constraint_key(#[trigger] cs[q]) != constraint_key(cs[j])
}

/// The fused constraints of the keys of the first `j` constraints, in the
/// order the keys first occur; a key none of whose constraints carries its
/// settled polarity gives none.
pub open spec fn fused_prefix(cs: Seq<SemanticConstraint>, j: int) -> Seq<SemanticConstraint>
    decreases j,
{
    if j <= 0 {
        Seq::empty()
    } else {
        let prev = fused_prefix(cs, j - 1);
        let k = constraint_key(cs[j - 1]);
        if first_of_key(cs, j - 1) && exists|i: int| is_fusion_pick(cs, k, i) {
            prev.push(fused_of(cs, k))
        } else {
            prev
        }
    }
}

/// The weight sums of every key and polarity fit in 16 bits.
pub open spec fn polar_weights_fit(cs: Seq<SemanticConstraint>) -> bool {
    forall|k: (Seq<char>, Seq<char>, Option<Seq<char>>), b: bool| #[trigger] polar_weight(cs, k, b) <= 0xffff
}

proof fn lemma_polar_weight_prefix(
    s: Seq<SemanticConstraint>,
    q: int,
    k: (Seq<char>, Seq<char>, Option<Seq<char>>),
    b: bool,
)
    requires
        0 <= q <= s.len(),
    ensures
        polar_weight(s.subrange(0, q), k, b) <= polar_weight(s, k, b),
    decreases s.len(),
{
    if q == s.len() {
        assert(s.subrange(0, q) =~= s);
    } else {
        lemma_polar_weight_prefix(s.drop_last(), q, k, b);
        assert(s.drop_last().subrange(0, q) =~= s.subrange(0, q));
    }
}

proof fn lemma_fusion_pick_unique(
    cs: Seq<SemanticConstraint>,
    k: (Seq<char>, Seq<char>, Option<Seq<char>>),
    i: int,
    j: int,
)
    requires
        is_fusion_pick(cs, k, i),
        is_fusion_pick(cs, k, j),
    ensures
        i == j,
{
    assert(cs[j].weight <= cs[i].weight);
    assert(cs[i].weight <= cs[j].weight);
    if i < j {
        assert(cs[i].weight < cs[j].weight);
    } else if j < i {
        assert(cs[j].weight < cs[i].weight);
    }
}

/// The point of concept `name` in field entries, if they hold it.
pub open spec fn point_of(s: FieldEntries, name: Seq<char>) -> Option<FieldPoint> {
    if exists|i: int| 0 <= i < s.len() && s[i].0 == name {
        Some(s[choose|i: int| 0 <= i < s.len() && s[i].0 == name].1)
    } else {
        None
    }
}

/// The weight of `c` after the field's resonance: where the field holds its
/// concept, a bonus of a 25th of the point's magnitude (at most 20) is added
/// when the point's sign agrees with the polarity, and taken off (keeping a
/// positive weight positive) when it does not.
pub open spec fn resonance_weight(c: SemanticConstraint, p: Option<FieldPoint>) -> int {
    match p {
        None => c.weight as int,
        Some(pt) => {
            let mag = if pt.intensity < 0 { -pt.intensity } else { pt.intensity as int };
            let bonus = if mag / 25 < 20 { mag / 25 } else { 20 };
            if (pt.intensity >= 0) == c.affirmed {
                if c.weight + bonus > 255 { 255 } else { c.weight + bonus }
            } else {
                let room = if c.weight > 0 { c.weight - 1 } else { 0 };
                c.weight - if bonus < room { bonus } else { room }
            }
        },
    }
}

/// The constraints after the field's resonance, in their order.
pub open spec fn propagated(field: FieldEntries, cs: Seq<SemanticConstraint>) -> Seq<SemanticConstraint> {
    cs.map_values(
        |c: SemanticConstraint|
            SemanticConstraint { weight: resonance_weight(c, point_of(field, constraint_concept(c))) as u8, ..c },
    )
}

/// No constraint's concept sits in the field at the least `i64` intensity
/// (whose magnitude has no `i64`).
pub open spec fn resonance_fits(field: FieldEntries, cs: Seq<SemanticConstraint>) -> bool {
    forall|k: int|
        0 <= k < cs.len() ==> match point_of(field, constraint_concept(#[trigger] cs[k])) {
            Some(p) => p.intensity != i64::MIN,
            None => true,
        }
}

proof fn lemma_point_of(s: FieldEntries, name: Seq<char>, i: int)
    requires
        sorted_keys(s),
        0 <= i < s.len(),
        s[i].0 == name,
    ensures
        point_of(s, name) == Some(s[i].1),
{
    assert(exists|w: int| 0 <= w < s.len() && s[w].0 == name);
    let w = choose|w: int| 0 <= w < s.len() && s[w].0 == name;
    lemma_text_lt_irreflexive(name);
    if w < i {
        assert(text_lt(s[w].0, s[i].0));
    } else if i < w {
        assert(text_lt(s[i].0, s[w].0));
    }
}

/// An anchor counts as active once it persisted `min_persistence` times (at
/// least once).
pub open spec fn anchor_active(a: ConceptAnchor, min_persistence: usize) -> bool {
    a.persistence_hits >= if min_persistence > 0 { min_persistence } else { 1 }
}

/// The ids of the active anchors, in registry order.
pub open spec fn active_ids(anchors: Seq<ConceptAnchor>, min_persistence: usize) -> Seq<Seq<char>>
    decreases anchors.len(),
{
    if anchors.len() == 0 {
        Seq::empty()
    } else {
        let prev = active_ids(anchors.drop_last(), min_persistence);
        if anchor_active(anchors.last(), min_persistence) {
            prev.push(anchors.last().id@)
        } else {
            prev
        }
    }
}

/// The energy of the last active anchor with id `id`, if there is one.
pub open spec fn active_energy(anchors: Seq<ConceptAnchor>, min_persistence: usize, id: Seq<char>) -> Option<i64>
    decreases anchors.len(),
{
    if anchors.len() == 0 {
        None
    } else if anchor_active(anchors.last(), min_persistence) && anchors.last().id@ == id {
        Some(anchors.last().energy)
    } else {
        active_energy(anchors.drop_last(), min_persistence, id)
    }
}

pub open spec fn entry_ids(e: Seq<(String, i64)>) -> Seq<Seq<char>> {
    e.map_values(|x: (String, i64)| x.0@)
}

proof fn lemma_active_energy_some(anchors: Seq<ConceptAnchor>, m: usize, id: Seq<char>)
    requires
        active_ids(anchors, m).contains(id),
    ensures
        active_energy(anchors, m, id) is Some,
    decreases anchors.len(),
{
    if anchors.len() > 0 {
        let prev = active_ids(anchors.drop_last(), m);
        if !(anchor_active(anchors.last(), m) && anchors.last().id@ == id) {
            if anchor_active(anchors.last(), m) {
                let w = choose|w: int| 0 <= w < active_ids(anchors, m).len() && active_ids(anchors, m)[w] == id;
                assert(w < prev.len());
                assert(prev[w] == id);
            }
            lemma_active_energy_some(anchors.drop_last(), m, id);
        }
    }
}

/// Id and energy entries as plain values.
pub open spec fn energy_view(e: Seq<(String, i64)>) -> Seq<(Seq<char>, i64)> {
    e.map_values(|x: (String, i64)| (x.0@, x.1))
}

/// The energy entered last for `id`, if any.
pub open spec fn value_in(p: Seq<(Seq<char>, i64)>, id: Seq<char>) -> Option<i64>
    decreases p.len(),
{
    if p.len() == 0 {
        None
    } else if p.last().0 == id {
        Some(p.last().1)
    } else {
        value_in(p.drop_last(), id)
    }
}

pub open spec fn abs_int(x: int) -> int {
    if x < 0 { -x } else { x }
}

/// How many entries of `a` have an id that `p` holds.
pub open spec fn overlap_count(a: Seq<(Seq<char>, i64)>, p: Seq<(Seq<char>, i64)>) -> nat
    decreases a.len(),
{
    if a.len() == 0 {
        0
    } else {
        overlap_count(a.drop_last(), p) + if value_in(p, a.last().0) is Some { 1nat } else { 0nat }
    }
}

/// The summed energy change of the ids both hold.
pub open spec fn drift_total(a: Seq<(Seq<char>, i64)>, p: Seq<(Seq<char>, i64)>) -> int
    decreases a.len(),
{
    if a.len() == 0 {
        0
    } else {
        drift_total(a.drop_last(), p) + match value_in(p, a.last().0) {
            Some(v) => abs_int(a.last().1 - v),
            None => 0,
        }
    }
}

/// How far the field's point for an anchor agrees with its energy: 100
/// less their distance, not below 0.
pub open spec fn agreement(intensity: i64, energy: i64) -> int {
    let d = abs_int(intensity - energy);
    if 100 - d > 0 { 100 - d } else { 0 }
}

/// The summed agreement, and the number, of the anchors the field holds.
pub open spec fn coherence_terms(field: FieldEntries, a: Seq<(Seq<char>, i64)>) -> (int, nat)
    decreases a.len(),
{
    if a.len() == 0 {
        (0, 0)
    } else {
        let prev = coherence_terms(field, a.drop_last());
        match point_of(field, a.last().0) {
            Some(pt) => (prev.0 + agreement(pt.intensity, a.last().1), prev.1 + 1),
            None => prev,
        }
    }
}

/// Anchor continuity between the active anchors `a` and the previous ones
/// `p`: how many ids both hold, their summed energy drift, the share of the
/// previous ids still active (in percent; 100 without previous ids), and
/// the mean agreement of the active anchors with the field (0 where the
/// field holds none of them).
pub open spec fn continuity(field: FieldEntries, a: Seq<(Seq<char>, i64)>, p: Seq<(Seq<char>, i64)>) -> (int, int, int, int) {
    let ov = overlap_count(a, p);
    let stability: int = if p.len() == 0 { 100 } else { (ov as int * 100) / (p.len() as int) };
    let ct = coherence_terms(field, a);
    let coherence = if ct.1 == 0 { 0 } else { ct.0 / (ct.1 as int) };
    (ov as int, drift_total(a, p), stability, coherence)
}

/// Each active anchor the field holds is within `i64` reach of its point.
pub open spec fn coherence_fits(field: FieldEntries, a: Seq<(Seq<char>, i64)>) -> bool {
    forall|k: int|
        0 <= k < a.len() ==> match point_of(field, (#[trigger] a[k]).0) {
            Some(pt) => abs_int(pt.intensity - a[k].1) <= i64::MAX,
            None => true,
        }
}

proof fn lemma_drift_prefix(a: Seq<(Seq<char>, i64)>, p: Seq<(Seq<char>, i64)>, q: int)
    requires
        0 <= q <= a.len(),
    ensures
        0 <= drift_total(a.subrange(0, q), p) <= drift_total(a, p),
    decreases a.len(),
{
    if q == a.len() {
        assert(a.subrange(0, q) =~= a);
        if a.len() > 0 {
            lemma_drift_prefix(a.drop_last(), p, q - 1);
            assert(a.drop_last().subrange(0, q - 1) =~= a.drop_last());
        }
    } else {
        lemma_drift_prefix(a.drop_last(), p, q);
        assert(a.drop_last().subrange(0, q) =~= a.subrange(0, q));
    }
}

proof fn lemma_coherence_bounds(field: FieldEntries, a: Seq<(Seq<char>, i64)>)
    ensures
        0 <= coherence_terms(field, a).0 <= 100 * coherence_terms(field, a).1,
        coherence_terms(field, a).1 <= a.len(),
    decreases a.len(),
{
    if a.len() > 0 {
        lemma_coherence_bounds(field, a.drop_last());
    }
}

proof fn lemma_overlap_bound(a: Seq<(Seq<char>, i64)>, p: Seq<(Seq<char>, i64)>)
    ensures
        overlap_count(a, p) <= a.len(),
    decreases a.len(),
{
    if a.len() > 0 {
        lemma_overlap_bound(a.drop_last(), p);
    }
}

proof fn lemma_active_energy_listed(anchors: Seq<ConceptAnchor>, m: usize, id: Seq<char>)
    requires
        active_energy(anchors, m, id) is Some,
    ensures
        active_ids(anchors, m).contains(id),
    decreases anchors.len(),
{
    if anchors.len() > 0 {
        let prev = active_ids(anchors.drop_last(), m);
        if anchor_active(anchors.last(), m) && anchors.last().id@ == id {
            assert(active_ids(anchors, m)[prev.len() as int] == id);
        } else {
            lemma_active_energy_listed(anchors.drop_last(), m, id);
            let w = choose|w: int| 0 <= w < prev.len() && prev[w] == id;
            if anchor_active(anchors.last(), m) {
                assert(active_ids(anchors, m)[w] == id);
            }
        }
    }
}

proof fn lemma_value_in_sorted(e: Seq<(String, i64)>, id: Seq<char>)
    requires
        strictly_sorted_texts(entry_ids(e)),
    ensures
        forall|k: int| 0 <= k < e.len() && (#[trigger] e[k]).0@ == id ==> value_in(energy_view(e), id) == Some(e[k].1),
        (forall|k: int| 0 <= k < e.len() ==> (#[trigger] e[k]).0@ != id) ==> value_in(energy_view(e), id) is None,
    decreases e.len(),
{
    if e.len() > 0 {
        let d = e.drop_last();
        assert(energy_view(e).drop_last() =~= energy_view(d));
        assert(entry_ids(d) =~= entry_ids(e).drop_last());
        lemma_value_in_sorted(d, id);
        lemma_text_lt_irreflexive(id);
        assert forall|k: int| 0 <= k < e.len() && (#[trigger] e[k]).0@ == id implies value_in(energy_view(e), id)
            == Some(e[k].1) by {
            if k < e.len() - 1 {
                if e.last().0@ == id {
                    assert(text_lt(entry_ids(e)[k], entry_ids(e)[e.len() - 1]));
                }
                assert(d[k] == e[k]);
            }
        }
        if forall|k: int| 0 <= k < e.len() ==> (#[trigger] e[k]).0@ != id {
            assert(e[e.len() - 1].0@ != id);
            assert forall|k: int| 0 <= k < d.len() implies (#[trigger] d[k]).0@ != id by {
                assert(d[k] == e[k]);
            }
        }
    }
}

/// `fusion_bias` as the bias byte it becomes: nothing when not positive,
/// otherwise its low byte.
pub open spec fn bias_byte(fusion_bias: i64) -> int {
    if fusion_bias <= 0 { 0 } else { (fusion_bias as int) % 256 }
}

/// A weight moved towards an active anchor: raised by the bias (at most
/// 20, capped at 255) when the anchor's sign agrees with the polarity,
/// lowered by it otherwise (keeping a positive weight positive).
pub open spec fn anchor_weight(w: int, anchor: Option<i64>, affirmed: bool, bias: int) -> int {
    match anchor {
        None => w,
        Some(e) => if (e >= 0) == affirmed {
            let step = if bias < 20 { bias } else { 20 };
            if w + step > 255 { 255 } else { w + step }
        } else {
            let room = if w > 0 { w - 1 } else { 0 };
            w - if bias < room { bias } else { room }
        },
    }
}

/// A weight moved by the field: raised by 2 (capped at 255) where the
/// field's point agrees with the polarity, lowered by 1 (not below 0) where
/// it does not.
pub open spec fn field_weight(w: int, p: Option<FieldPoint>, affirmed: bool) -> int {
    match p {
        None => w,
        Some(pt) => if (pt.intensity >= 0) == affirmed {
            if w + 2 > 255 { 255 } else { w + 2 }
        } else {
            if w > 0 { w - 1 } else { 0 }
        },
    }
}

/// The constraints after anchor-guided fusion, in their order: each weight
/// moved first towards the active anchor of its concept, then by the field.
pub open spec fn anchor_guided(
    cs: Seq<SemanticConstraint>,
    anchors: Seq<ConceptAnchor>,
    min_persistence: usize,
    field: FieldEntries,
    bias: int,
) -> Seq<SemanticConstraint> {
    cs.map_values(
        |c: SemanticConstraint|
            SemanticConstraint {
                weight: field_weight(
                    anchor_weight(
                        c.weight as int,
                        active_energy(anchors, min_persistence, constraint_concept(c)),
                        c.affirmed,
                        bias,
                    ),
                    point_of(field, constraint_concept(c)),
                    c.affirmed,
                ) as u8,
                ..c
            },
    )
}

/// `s` with every `:` replaced by `_`.
pub open spec fn colons_to_underscores(s: Seq<char>) -> Seq<char> {
    s.map_values(|c: char| if c == ':' { '_' } else { c })
}

/// The count entered last for `id`, 0 where there is none.
pub open spec fn hit_count(hits: Seq<(String, usize)>, id: Seq<char>) -> nat
    decreases hits.len(),
{
    if hits.len() == 0 {
        0
    } else if hits.last().0@ == id {
        hits.last().1 as nat
    } else {
        hit_count(hits.drop_last(), id)
    }
}

/// The candidates that persisted at least `min_persistence` times (at
/// least once), in their order.
pub open spec fn persistent_candidates(
    cands: Seq<EmergentConceptCandidate>,
    hits: Seq<(String, usize)>,
    min_persistence: usize,
) -> Seq<EmergentConceptCandidate>
    decreases cands.len(),
{
    if cands.len() == 0 {
        Seq::empty()
    } else {
        let prev = persistent_candidates(cands.drop_last(), hits, min_persistence);
        let floor: nat = if min_persistence > 0 { min_persistence as nat } else { 1 };
        if hit_count(hits, cands.last().id@) >= floor {
            prev.push(cands.last())
        } else {
            prev
        }
    }
}

/// `x` is the constraint an emergent candidate `c` contributes: an
/// affirmed assertion about the candidate's subject, of the predicate
/// `emergent/` and the candidate's id with `_` for `:`, with weight
/// `weight` (at least 1).
pub open spec fn is_emergent_constraint(x: SemanticConstraint, c: EmergentConceptCandidate, weight: u8) -> bool {
    &&& x.subject@ == c.subject@
    &&& x.predicate@ == "emergent/"@ + colons_to_underscores(c.id@)
    &&& x.object is None
    &&& x.affirmed
    &&& x.kind == ConstraintKind::Assertion
    &&& x.weight == if weight > 0 { weight } else { 1 }
}

/// `mid` holds, in order, the constraints that the candidates `kept`
/// contribute.
pub open spec fn emergent_constraints_for(
    mid: Seq<SemanticConstraint>,
    kept: Seq<EmergentConceptCandidate>,
    weight: u8,
) -> bool {
    &&& mid.len() == kept.len()
    &&& forall|k: int| 0 <= k < mid.len() ==> is_emergent_constraint(#[trigger] mid[k], kept[k], weight)
}

/// The candidate entered last for `id`, if any.
pub open spec fn latest_candidate(latest: Seq<(String, EmergentConceptCandidate)>, id: Seq<char>) -> Option<
    EmergentConceptCandidate,
>
    decreases latest.len(),
{
    if latest.len() == 0 {
        None
    } else if latest.last().0@ == id {
        Some(latest.last().1)
    } else {
        latest_candidate(latest.drop_last(), id)
    }
}

/// The candidates that become emergent concepts, with their hits, in the
/// order of `hits`: those whose hits reach `min_persistence` (at least 1)
/// and that have a latest candidate.
pub open spec fn materialized(
    hits: Seq<(String, usize)>,
    latest: Seq<(String, EmergentConceptCandidate)>,
    min_persistence: usize,
) -> Seq<(EmergentConceptCandidate, usize)>
    decreases hits.len(),
{
    if hits.len() == 0 {
        Seq::empty()
    } else {
        let prev = materialized(hits.drop_last(), latest, min_persistence);
        let h = hits.last();
        let floor: nat = if min_persistence > 0 { min_persistence as nat } else { 1 };
        match latest_candidate(latest, h.0@) {
            Some(c) => if h.1 >= floor { prev.push((c, h.1)) } else { prev },
            None => prev,
        }
    }
}

/// The content hash of an emergent concept: of the JSON array of its
/// candidate's id, subject, basis anchors, members and resonance score and
/// its hits.
pub open spec fn emergent_hash(c: EmergentConceptCandidate, hits: usize) -> Seq<char> {
    json_hash(
        json_list(
            seq![
                json_str(c.id@),
                json_str(c.subject@),
                json_strs(views(c.basis_anchors@)),
                json_strs(views(c.members@)),
                dec_int(c.resonance_score as int),
                dec_nat(hits as nat),
            ],
        ),
    )
}

/// `x` is the emergent concept of candidate `c` with `hits` hits.
pub open spec fn is_emergent_concept(x: EmergentConcept, c: EmergentConceptCandidate, hits: usize) -> bool {
    &&& x.id@ == c.id@
    &&& x.subject@ == c.subject@
    &&& x.basis_anchors@ == c.basis_anchors@
    &&& x.members@ == c.members@
    &&& x.resonance_score == c.resonance_score
    &&& x.persistence_hits == hits
    &&& x.canonical_hash@ == emergent_hash(c, hits)
}

/// The active anchors, in registry order.
pub open spec fn active_anchors(anchors: Seq<ConceptAnchor>, min_persistence: usize) -> Seq<ConceptAnchor>
    decreases anchors.len(),
{
    if anchors.len() == 0 {
        Seq::empty()
    } else {
        let prev = active_anchors(anchors.drop_last(), min_persistence);
        if anchor_active(anchors.last(), min_persistence) {
            prev.push(anchors.last())
        } else {
            prev
        }
    }
}

/// Anchor order: by id, then by canonical hash.
pub open spec fn anchor_first() -> spec_fn(ConceptAnchor, ConceptAnchor) -> bool {
    |a: ConceptAnchor, b: ConceptAnchor|
        text_lt(a.id@, b.id@) || (a.id@ == b.id@ && text_lt(a.canonical_hash@, b.canonical_hash@))
}

// ── computation ──────────────────────────────────────────────────────────────

/// Adds to `base` each addition whose key and polarity it does not hold
/// yet, then puts `base` in constraint order (subject, predicate, object,
/// polarity, weight; equal ones kept in their order).
pub fn append_missing_constraints(base: &mut Vec<SemanticConstraint>, additions: &[SemanticConstraint])
    ensures
        final(base)@ == stable_sorted(old(base)@ + missing_additions(old(base)@, additions@)),
{
    let ghost b0 = base@;
    let mut i: usize = 0;
    assert(additions@.subrange(0, 0) =~= Seq::<SemanticConstraint>::empty());
    assert(b0 + Seq::<SemanticConstraint>::empty() =~= b0);
    while i < additions.len()
        invariant
            i <= additions@.len(),
            base@ == b0 + missing_additions(b0, additions@.subrange(0, i as int)),
        decreases additions@.len() - i,
    {
        let c = &additions[i];
        let mut seen = false;
        let mut j: usize = 0;
        while j < base.len()
            invariant
                j <= base@.len(),
                seen == exists|q: int| 0 <= q < j && polar_key(#[trigger] base@[q]) == polar_key(*c),
            decreases base@.len() - j,
        {
            if same_key(&base[j], c) && base[j].affirmed == c.affirmed {
                assert(polar_key(base@[j as int]) == polar_key(*c));
                seen = true;
            }
            j = j + 1;
        }
        proof {
            assert(additions@.subrange(0, i + 1).drop_last() =~= additions@.subrange(0, i as int));
            assert(additions@.subrange(0, i + 1).last() == *c);
        }
        if !seen {
            let ghost before = base@;
            base.push(c.duplicate());
            assert(base@ =~= b0 + missing_additions(b0, additions@.subrange(0, i + 1)));
        }
        i = i + 1;
    }
    assert(additions@.subrange(0, additions@.len() as int) =~= additions@);
    let sorted = sort_constraints(base.as_slice());
    *base = sorted;
}


/// Whether some constraint with the key of `c` has polarity `affirmed`.
fn key_polarity_occurs(flat: &Vec<&SemanticConstraint>, c: &SemanticConstraint, affirmed: bool) -> (r: bool)
    ensures
        r == key_has_polarity(flat@.map_values(|x: &SemanticConstraint| *x), constraint_key(*c), affirmed),
{
    let ghost cs = flat@.map_values(|x: &SemanticConstraint| *x);
    let mut i: usize = 0;
    while i < flat.len()
        invariant
            i <= flat@.len(),
            cs == flat@.map_values(|x: &SemanticConstraint| *x),
            forall|q: int|
                0 <= q < i ==> !(constraint_key(#[trigger] cs[q]) == constraint_key(*c) && cs[q].affirmed
                    == affirmed),
        decreases flat@.len() - i,
    {
        let x: &SemanticConstraint = flat[i];
        if same_key(x, c) && x.affirmed == affirmed {
            assert(cs[i as int] == *x);
            return true;
        }
        i = i + 1;
    }
    false
}

/// The constraints of all frames, frame by frame, by reference.
fn flatten_frames<'a>(by_frame: &'a Vec<Vec<SemanticConstraint>>) -> (flat: Vec<&'a SemanticConstraint>)
    ensures
        flat@.map_values(|x: &SemanticConstraint| *x) == frame_constraints(by_frame@),
{
    let ghost frames = by_frame@;
    let mut flat: Vec<&SemanticConstraint> = Vec::new();
    let mut f: usize = 0;
    while f < by_frame.len()
        invariant
            f <= frames.len(),
            frames == by_frame@,
            flat@.map_values(|x: &SemanticConstraint| *x) == frame_constraints(frames.subrange(0, f as int)),
        decreases frames.len() - f,
    {
        let group: &Vec<SemanticConstraint> = &by_frame[f];
        let ghost base = frame_constraints(frames.subrange(0, f as int));
        let mut i: usize = 0;
        while i < group.len()
            invariant
                i <= group@.len(),
                flat@.map_values(|x: &SemanticConstraint| *x) == base + group@.subrange(0, i as int),
            decreases group@.len() - i,
        {
            let ghost before = flat@.map_values(|x: &SemanticConstraint| *x);
            flat.push(&group[i]);
            assert(flat@.map_values(|x: &SemanticConstraint| *x) =~= before.push(group@[i as int]));
            assert(group@.subrange(0, i + 1) =~= group@.subrange(0, i as int).push(group@[i as int]));
            i = i + 1;
        }
        proof {
            assert(group@.subrange(0, group@.len() as int) =~= group@);
            assert(frames.subrange(0, f + 1).drop_last() =~= frames.subrange(0, f as int));
        }
        f = f + 1;
    }
    assert(frames.subrange(0, frames.len() as int) =~= frames);
    flat
}

/// How many keys (subject, predicate, object) the frames hold both affirmed
/// and negated, each key counted once however many constraints carry it.
pub fn count_cross_frame_conflicts(by_frame: &Vec<Vec<SemanticConstraint>>) -> (r: usize)
    ensures
        r == conflict_keys(frame_constraints(by_frame@)).len(),
        conflict_keys(frame_constraints(by_frame@)).finite(),
{
    let flat = flatten_frames(by_frame);
    let ghost cs = flat@.map_values(|x: &SemanticConstraint| *x);
    let mut r: usize = 0;
    let mut j: usize = 0;
    assert(conflict_keys_before(cs, 0) =~= Set::empty());
    while j < flat.len()
        invariant
            j <= flat@.len(),
            cs == flat@.map_values(|x: &SemanticConstraint| *x),
            r <= j,
            conflict_keys_before(cs, j as int).finite(),
            r == conflict_keys_before(cs, j as int).len(),
        decreases flat@.len() - j,
    {
        let c: &SemanticConstraint = flat[j];
        assert(cs[j as int] == *c);
        let ghost k = constraint_key(*c);
        let mut first = true;
        let mut i: usize = 0;
        while i < j
            invariant
                i <= j < flat@.len(),
                cs == flat@.map_values(|x: &SemanticConstraint| *x),
                k == constraint_key(cs[j as int]),
                k == constraint_key(*c),
                first == forall|q: int| 0 <= q < i ==> constraint_key(#[trigger] cs[q]) != k,
            decreases j - i,
        {
            assert(cs[i as int] == *flat@[i as int]);
            if same_key(flat[i], c) {
                first = false;
            }
            i = i + 1;
        }
        let conflicting = first && key_polarity_occurs(&flat, c, true) && key_polarity_occurs(
            &flat,
            c,
            false,
        );
        proof {
            let before = conflict_keys_before(cs, j as int);
            let after = conflict_keys_before(cs, j + 1);
            if conflicting {
                assert(after =~= before.insert(k));
                assert(!before.contains(k));
            } else if first {
                assert(!conflict_keys(cs).contains(k));
                assert(after =~= before);
            } else {
                let q = choose|q: int| 0 <= q < j && constraint_key(cs[q]) == k;
                assert(after =~= before);
            }
        }
        if conflicting {
            r = r + 1;
        }
        j = j + 1;
    }
    proof {
        assert forall|k: (Seq<char>, Seq<char>, Option<Seq<char>>)|
            conflict_keys(cs).contains(k) implies conflict_keys_before(cs, cs.len() as int).contains(k) by {
            let i = choose|i: int| 0 <= i < cs.len() && constraint_key(#[trigger] cs[i]) == k && cs[i].affirmed == true;
            assert(constraint_key(cs[i]) == k);
        }
        assert(conflict_keys_before(cs, cs.len() as int) =~= conflict_keys(cs));
    }
    r
}

/// How many of the pairs are (`s`, `c`).
fn count_votes(subs: &Vec<String>, cons: &Vec<String>, s: &String, c: &String) -> (r: usize)
    requires
        subs@.len() == cons@.len(),
    ensures
        r == vote_count(pair_view(subs@, cons@), s@, c@),
{
    let ghost p = pair_view(subs@, cons@);
    let mut r: usize = 0;
    let mut j: usize = 0;
    proof {
        p.subrange(0, 0).to_multiset_ensures();
        assert(!p.subrange(0, 0).contains((s@, c@)));
    }
    while j < subs.len()
        invariant
            j <= subs@.len(),
            subs@.len() == cons@.len(),
            p == pair_view(subs@, cons@),
            r <= j,
            r == p.subrange(0, j as int).to_multiset().count((s@, c@)),
        decreases subs@.len() - j,
    {
        proof {
            let q = p.subrange(0, j as int);
            assert(p.subrange(0, j + 1) =~= q.push(p[j as int]));
            q.to_multiset_ensures();
        }
        if same_text(&subs[j], s) && same_text(&cons[j], c) {
            r = r + 1;
        }
        j = j + 1;
    }
    assert(p.subrange(0, subs@.len() as int) =~= p);
    r
}

/// The stable sense of each subject that some frame resolved, in subject
/// order: the concept the most resolved selections chose for it (ties to
/// the concept first in text order), with the number of those selections.
/// Unresolved selections do not vote.
pub fn consolidate_stable_senses(frame_results: &Vec<FrameIterationResult>) -> (out: Vec<StableSense>)
    ensures
        strictly_sorted_texts(sense_subjects(out@)),
        sense_subjects(out@).to_set() == voted_subjects(sense_votes(frame_results@)),
        forall|k: int|
            0 <= k < out@.len() ==> is_stable_sense(sense_votes(frame_results@), #[trigger] out@[k]),
{
    let ghost frames = frame_results@;
    let mut subs: Vec<String> = Vec::new();
    let mut cons: Vec<String> = Vec::new();
    let mut f: usize = 0;
    while f < frame_results.len()
        invariant
            f <= frames.len(),
            frames == frame_results@,
            subs@.len() == cons@.len(),
            pair_view(subs@, cons@) == sense_votes(frames.subrange(0, f as int)),
        decreases frames.len() - f,
    {
        let sel = &frame_results[f].selected_senses;
        let ghost base = sense_votes(frames.subrange(0, f as int));
        let mut j: usize = 0;
        while j < sel.len()
            invariant
                j <= sel@.len(),
                subs@.len() == cons@.len(),
                pair_view(subs@, cons@) == base + resolved_votes(sel@.subrange(0, j as int)),
            decreases sel@.len() - j,
        {
            let ghost before = pair_view(subs@, cons@);
            proof {
                assert(sel@.subrange(0, j + 1).drop_last() =~= sel@.subrange(0, j as int));
            }
            if !sel[j].2 {
                subs.push(sel[j].0.clone());
                cons.push(sel[j].1.clone());
                assert(pair_view(subs@, cons@) =~= before.push((sel@[j as int].0@, sel@[j as int].1@)));
            }
            j = j + 1;
        }
        proof {
            assert(sel@.subrange(0, sel@.len() as int) =~= sel@);
            assert(frames.subrange(0, f + 1).drop_last() =~= frames.subrange(0, f as int));
        }
        f = f + 1;
    }
    assert(frames.subrange(0, frames.len() as int) =~= frames);
    let ghost votes = pair_view(subs@, cons@);
    assert(votes.map_values(|v: (Seq<char>, Seq<char>)| v.0) =~= views(subs@));
    let subjects = distinct_sorted_texts(&subs);

    let mut out: Vec<StableSense> = Vec::new();
    let mut t: usize = 0;
    while t < subjects.len()
        invariant
            t <= subjects@.len(),
            subs@.len() == cons@.len(),
            votes == pair_view(subs@, cons@),
            views(subjects@).to_set() == views(subs@).to_set(),
            out@.len() == t,
            forall|k: int| 0 <= k < t ==> (#[trigger] out@[k]).subject@ == subjects@[k]@,
            forall|k: int| 0 <= k < t ==> is_stable_sense(votes, #[trigger] out@[k]),
        decreases subjects@.len() - t,
    {
        let s = &subjects[t];
        proof {
            assert(views(subjects@)[t as int] == s@);
            assert(views(subs@).to_set().contains(s@));
        }
        let mut found = false;
        let mut best_c = String::new();
        let mut best_n: usize = 0;
        let mut k: usize = 0;
        while k < subs.len()
            invariant
                k <= subs@.len(),
                subs@.len() == cons@.len(),
                votes == pair_view(subs@, cons@),
                found ==> best_n > 0 && best_n == vote_count(votes, s@, best_c@),
                found ==> forall|kk: int|
                    0 <= kk < k && votes[kk].0 == s@ ==> vote_count(votes, s@, #[trigger] votes[kk].1)
                        < best_n || (vote_count(votes, s@, votes[kk].1) == best_n && text_le()(
                        best_c@,
                        votes[kk].1,
                    )),
                !found ==> forall|kk: int| 0 <= kk < k ==> (#[trigger] votes[kk]).0 != s@,
            decreases subs@.len() - k,
        {
            if same_text(&subs[k], s) {
                let cnt = count_votes(&subs, &cons, s, &cons[k]);
                proof {
                    votes.to_multiset_ensures();
                    assert(votes[k as int] == (s@, cons@[k as int]@));
                    assert(votes.contains((s@, cons@[k as int]@)));
                }
                let better = !found || cnt > best_n || (cnt == best_n && less_than(
                    cons[k].as_str(),
                    best_c.as_str(),
                ));
                if better {
                    proof {
                        let c = cons@[k as int]@;
                        assert forall|kk: int|
                            0 <= kk < k + 1 && votes[kk].0 == s@ implies vote_count(
                            votes,
                            s@,
                            #[trigger] votes[kk].1,
                        ) < cnt || (vote_count(votes, s@, votes[kk].1) == cnt && text_le()(
                            c,
                            votes[kk].1,
                        )) by {
                            if kk < k && found && vote_count(votes, s@, votes[kk].1) == cnt {
                                if cnt == best_n {
                                    if votes[kk].1 != best_c@ {
                                        lemma_text_lt_transitive(c, best_c@, votes[kk].1);
                                    }
                                }
                            }
                        }
                    }
                    found = true;
                    best_n = cnt;
                    best_c = cons[k].clone();
                } else {
                    proof {
                        let c = cons@[k as int]@;
                        if cnt == best_n && c != best_c@ {
                            lemma_text_lt_total(c, best_c@);
                        }
                    }
                }
            }
            k = k + 1;
        }
        proof {
            if !found {
                let w = choose|i: int| 0 <= i < views(subs@).len() && views(subs@)[i] == s@;
                assert(votes[w].0 == s@);
            }
            votes.to_multiset_ensures();
            assert forall|c: Seq<char>|
                #[trigger] vote_count(votes, s@, c) < best_n || (vote_count(votes, s@, c)
                    == best_n && text_le()(best_c@, c)) by {
                if vote_count(votes, s@, c) > 0 {
                    assert(votes.contains((s@, c)));
                    let w = choose|i: int| 0 <= i < votes.len() && votes[i] == (s@, c);
                    assert(votes[w].0 == s@ && votes[w].1 == c);
                }
            }
        }
        let sense = StableSense { subject: s.clone(), selected_concept: best_c, support_frames: best_n };
        out.push(sense);
        t = t + 1;
    }
    assert(sense_subjects(out@) =~= views(subjects@));
    out
}

/// The total weight of the constraints with the key of `c` and polarity
/// `affirmed`.
fn polar_weight_of(flat: &Vec<&SemanticConstraint>, c: &SemanticConstraint, affirmed: bool) -> (r: u16)
    requires
        polar_weights_fit(flat@.map_values(|x: &SemanticConstraint| *x)),
    ensures
        r == polar_weight(flat@.map_values(|x: &SemanticConstraint| *x), constraint_key(*c), affirmed),
{
    let ghost cs = flat@.map_values(|x: &SemanticConstraint| *x);
    let ghost k = constraint_key(*c);
    let mut r: u16 = 0;
    let mut q: usize = 0;
    assert(cs.subrange(0, 0) =~= Seq::<SemanticConstraint>::empty());
    while q < flat.len()
        invariant
            q <= flat@.len(),
            cs == flat@.map_values(|x: &SemanticConstraint| *x),
            k == constraint_key(*c),
            polar_weights_fit(cs),
            r == polar_weight(cs.subrange(0, q as int), k, affirmed),
        decreases flat@.len() - q,
    {
        let x: &SemanticConstraint = flat[q];
        proof {
            assert(cs[q as int] == *x);
            assert(cs.subrange(0, q + 1).drop_last() =~= cs.subrange(0, q as int));
            lemma_polar_weight_prefix(cs, q + 1, k, affirmed);
            assert(polar_weight(cs, k, affirmed) <= 0xffff);
        }
        if same_key(x, c) && x.affirmed == affirmed {
            r = r + x.weight as u16;
        }
        q = q + 1;
    }
    assert(cs.subrange(0, flat@.len() as int) =~= cs);
    r
}

/// Fuses the frames' constraints: one constraint per key (subject,
/// predicate, object). The key settles on the polarity with the larger total
/// weight (affirmed on a tie); of the constraints with that polarity the
/// heaviest, first in frame order, stands for the key, carrying that total
/// weight capped at 255. The result is in constraint order.
pub fn fuse_cross_frame_constraints(by_frame: &Vec<Vec<SemanticConstraint>>) -> (out: Vec<SemanticConstraint>)
    requires
        polar_weights_fit(frame_constraints(by_frame@)),
    ensures
        out@ == stable_sorted(
            fused_prefix(frame_constraints(by_frame@), frame_constraints(by_frame@).len() as int),
        ),
{
    let flat = flatten_frames(by_frame);
    let ghost cs = flat@.map_values(|x: &SemanticConstraint| *x);
    let mut fused: Vec<SemanticConstraint> = Vec::new();
    let mut j: usize = 0;
    while j < flat.len()
        invariant
            j <= flat@.len(),
            cs == flat@.map_values(|x: &SemanticConstraint| *x),
            polar_weights_fit(cs),
            fused@ == fused_prefix(cs, j as int),
        decreases flat@.len() - j,
    {
        let c: &SemanticConstraint = flat[j];
        assert(cs[j as int] == *c);
        let ghost k = constraint_key(*c);
        let mut first = true;
        let mut i: usize = 0;
        while i < j
            invariant
                i <= j < flat@.len(),
                cs == flat@.map_values(|x: &SemanticConstraint| *x),
                k == constraint_key(cs[j as int]),
                k == constraint_key(*c),
                first == forall|q: int| 0 <= q < i ==> constraint_key(#[trigger] cs[q]) != k,
            decreases j - i,
        {
            assert(cs[i as int] == *flat@[i as int]);
            if same_key(flat[i], c) {
                first = false;
            }
            i = i + 1;
        }
        if first {
            let aff = polar_weight_of(&flat, c, true);
            let neg = polar_weight_of(&flat, c, false);
            let pick = aff >= neg;
            let mut found = false;
            let mut bi: usize = 0;
            let mut q: usize = 0;
            while q < flat.len()
                invariant
                    q <= flat@.len(),
                    cs == flat@.map_values(|x: &SemanticConstraint| *x),
                    k == constraint_key(*c),
                    pick == fused_polarity(cs, k),
                    found ==> bi < q && constraint_key(cs[bi as int]) == k && cs[bi as int].affirmed == pick,
                    found ==> forall|x: int|
                        0 <= x < q && constraint_key(#[trigger] cs[x]) == k && cs[x].affirmed == pick
                            ==> cs[x].weight <= cs[bi as int].weight,
                    found ==> forall|x: int|
                        0 <= x < bi && constraint_key(#[trigger] cs[x]) == k && cs[x].affirmed == pick
                            ==> cs[x].weight < cs[bi as int].weight,
                    !found ==> forall|x: int|
                        0 <= x < q ==> !(constraint_key(#[trigger] cs[x]) == k && cs[x].affirmed == pick),
                decreases flat@.len() - q,
            {
                let x: &SemanticConstraint = flat[q];
                assert(cs[q as int] == *x);
                if same_key(x, c) && x.affirmed == pick {
                    if !found {
                        found = true;
                        bi = q;
                    } else {
                        assert(cs[bi as int] == *flat@[bi as int]);
                        if x.weight > flat[bi].weight {
                            bi = q;
                        }
                    }
                }
                q = q + 1;
            }
            if found {
                let merged = if pick { aff } else { neg };
                let mut best = flat[bi].duplicate();
                best.weight = if merged > 255 { 255u8 } else { merged as u8 };
                proof {
                    assert(is_fusion_pick(cs, k, bi as int));
                    let w = choose|w: int| is_fusion_pick(cs, k, w);
                    lemma_fusion_pick_unique(cs, k, bi as int, w);
                    assert(best == fused_of(cs, k));
                }
                fused.push(best);
            } else {
                proof {
                    assert forall|w: int| !is_fusion_pick(cs, k, w) by {
                        if is_fusion_pick(cs, k, w) {
                            assert(constraint_key(cs[w]) == k);
                        }
                    }
                }
            }
        }
        j = j + 1;
    }
    sort_constraints(fused.as_slice())
}

/// Lets the shared field's resonance adjust each constraint's weight (see
/// `resonance_weight`), then puts them in constraint order.
pub fn propagate_resonance_constraints(shared_field: &SemanticField, fused_constraints: &Vec<SemanticConstraint>) -> (out: Vec<
    SemanticConstraint,
>)
    requires
        resonance_fits(shared_field@, fused_constraints@),
    ensures
        out@ == stable_sorted(propagated(shared_field@, fused_constraints@)),
{
    let ghost field = shared_field@;
    let mut next_all: Vec<SemanticConstraint> = Vec::new();
    let mut i: usize = 0;
    while i < fused_constraints.len()
        invariant
            i <= fused_constraints@.len(),
            field == shared_field@,
            resonance_fits(field, fused_constraints@),
            next_all@ == propagated(field, fused_constraints@).subrange(0, i as int),
        decreases fused_constraints@.len() - i,
    {
        let c = &fused_constraints[i];
        let mut concept = c.subject.clone();
        push_str(&mut concept, ":");
        push_str(&mut concept, c.predicate.as_str());
        proof {
            reveal_strlit(":");
        }
        assert(concept@ == constraint_concept(*c));
        let mut next = c.duplicate();
        match shared_field.concept(concept.as_str()) {
            Some(point) => {
                proof {
                    let w = choose|w: int| 0 <= w < field.len() && field[w].0 == concept@ && field[w].1 == *point;
                    lemma_point_of(field, concept@, w);
                    assert(fused_constraints@[i as int] == *c);
                }
                let mag: i64 = if point.intensity < 0 { -point.intensity } else { point.intensity };
                let q: i64 = mag / 25;
                let bonus: u8 = if q < 20 { q as u8 } else { 20u8 };
                if (point.intensity >= 0) == c.affirmed {
                    next.weight = if c.weight as u16 + bonus as u16 > 255 { 255u8 } else { c.weight + bonus };
                } else {
                    let room: u8 = if c.weight > 0 { c.weight - 1 } else { 0 };
                    next.weight = c.weight - if bonus < room { bonus } else { room };
                }
            },
            None => {
                proof {
                    assert(!exists|w: int| 0 <= w < field.len() && field[w].0 == concept@);
                }
            },
        }
        let ghost before = next_all@;
        next_all.push(next);
        proof {
            let p = propagated(field, fused_constraints@);
            assert(p.subrange(0, i + 1) =~= p.subrange(0, i as int).push(p[i as int]));
            assert(next_all@ =~= p.subrange(0, i + 1));
        }
        i = i + 1;
    }
    assert(propagated(field, fused_constraints@).subrange(0, fused_constraints@.len() as int)
        =~= propagated(field, fused_constraints@));
    sort_constraints(next_all.as_slice())
}

/// The energies of the active anchors by id, in id order (a later anchor
/// with the same id overriding an earlier one).
pub fn active_anchor_energies(registry: &AnchorRegistry, min_persistence: usize) -> (out: Vec<(String, i64)>)
    ensures
        strictly_sorted_texts(entry_ids(out@)),
        entry_ids(out@).to_set() == active_ids(registry.anchors@, min_persistence).to_set(),
        forall|k: int|
            0 <= k < out@.len() ==> active_energy(registry.anchors@, min_persistence, (#[trigger] out@[k]).0@)
                == Some(out@[k].1),
{
    let anchors = &registry.anchors;
    let floor: usize = if min_persistence > 0 { min_persistence } else { 1 };
    let mut ids: Vec<String> = Vec::new();
    let mut i: usize = 0;
    while i < anchors.len()
        invariant
            i <= anchors@.len(),
            floor == (if min_persistence > 0 { min_persistence } else { 1 }),
            views(ids@) == active_ids(anchors@.subrange(0, i as int), min_persistence),
        decreases anchors@.len() - i,
    {
        proof {
            assert(anchors@.subrange(0, i + 1).drop_last() =~= anchors@.subrange(0, i as int));
        }
        if anchors[i].persistence_hits >= floor {
            ids.push(anchors[i].id.clone());
            assert(views(ids@) =~= active_ids(anchors@.subrange(0, i + 1), min_persistence));
        }
        i = i + 1;
    }
    assert(anchors@.subrange(0, anchors@.len() as int) =~= anchors@);
    let sorted = distinct_sorted_texts(&ids);
    let mut out: Vec<(String, i64)> = Vec::new();
    let mut t: usize = 0;
    while t < sorted.len()
        invariant
            t <= sorted@.len(),
            floor == (if min_persistence > 0 { min_persistence } else { 1 }),
            strictly_sorted_texts(views(sorted@)),
            views(sorted@).to_set() == active_ids(anchors@, min_persistence).to_set(),
            entry_ids(out@) == views(sorted@).subrange(0, t as int),
            forall|k: int|
                0 <= k < out@.len() ==> active_energy(anchors@, min_persistence, (#[trigger] out@[k]).0@)
                    == Some(out@[k].1),
        decreases sorted@.len() - t,
    {
        let id = &sorted[t];
        proof {
            assert(views(sorted@)[t as int] == id@);
            assert(views(sorted@).to_set().contains(id@));
            lemma_active_energy_some(anchors@, min_persistence, id@);
        }
        let mut e: i64 = 0;
        let mut j: usize = anchors.len();
        let mut found = false;
        assert(anchors@.subrange(0, anchors@.len() as int) =~= anchors@);
        while j > 0 && !found
            invariant
                j <= anchors@.len(),
                floor == (if min_persistence > 0 { min_persistence } else { 1 }),
                found ==> active_energy(anchors@, min_persistence, id@) == Some(e),
                !found ==> active_energy(anchors@, min_persistence, id@) == active_energy(
                    anchors@.subrange(0, j as int),
                    min_persistence,
                    id@,
                ),
            decreases j,
        {
            j = j - 1;
            proof {
                assert(anchors@.subrange(0, j + 1).drop_last() =~= anchors@.subrange(0, j as int));
            }
            if anchors[j].persistence_hits >= floor && same_text(&anchors[j].id, id) {
                e = anchors[j].energy;
                found = true;
            }
        }
        if !found {
            assert(anchors@.subrange(0, 0) =~= Seq::<ConceptAnchor>::empty());
        }
        let ghost before = entry_ids(out@);
        out.push((id.clone(), e));
        assert(entry_ids(out@) =~= before.push(id@));
        assert(views(sorted@).subrange(0, t + 1) =~= views(sorted@).subrange(0, t as int).push(id@));
        t = t + 1;
    }
    assert(views(sorted@).subrange(0, sorted@.len() as int) =~= views(sorted@));
    assert(views(ids@) == active_ids(anchors@, min_persistence));
    out
}

/// The energy entered last for `id` in `p`.
fn value_of(p: &Vec<(String, i64)>, id: &String) -> (r: Option<i64>)
    ensures
        r == value_in(energy_view(p@), id@),
{
    let ghost pv = energy_view(p@);
    let mut j: usize = p.len();
    assert(pv.subrange(0, pv.len() as int) =~= pv);
    while j > 0
        invariant
            j <= p@.len(),
            pv == energy_view(p@),
            value_in(pv, id@) == value_in(pv.subrange(0, j as int), id@),
        decreases j,
    {
        j = j - 1;
        proof {
            assert(pv.subrange(0, j + 1).drop_last() =~= pv.subrange(0, j as int));
        }
        if same_text(&p[j].0, id) {
            return Some(p[j].1);
        }
    }
    None
}

/// How the active anchors continue the previous ones: overlap, drift,
/// stability and field coherence (see `continuity`).
pub fn compute_anchor_continuity(
    field: &SemanticField,
    active_anchor_map: &Vec<(String, i64)>,
    previous_anchor_map: &Vec<(String, i64)>,
) -> (r: (usize, i64, i64, i64))
    requires
        drift_total(energy_view(active_anchor_map@), energy_view(previous_anchor_map@)) <= i64::MAX,
        coherence_fits(field@, energy_view(active_anchor_map@)),
        active_anchor_map@.len() * 100 <= i64::MAX,
        previous_anchor_map@.len() <= i64::MAX,
    ensures
        (r.0 as int, r.1 as int, r.2 as int, r.3 as int) == continuity(
            field@,
            energy_view(active_anchor_map@),
            energy_view(previous_anchor_map@),
        ),
{
    let ghost a = energy_view(active_anchor_map@);
    let ghost p = energy_view(previous_anchor_map@);
    let ghost fv = field@;
    let mut overlap: usize = 0;
    let mut drift: i64 = 0;
    let mut coh_sum: i64 = 0;
    let mut coh_count: i64 = 0;
    let mut i: usize = 0;
    assert(a.subrange(0, 0) =~= Seq::<(Seq<char>, i64)>::empty());
    while i < active_anchor_map.len()
        invariant
            i <= a.len(),
            a == energy_view(active_anchor_map@),
            p == energy_view(previous_anchor_map@),
            fv == field@,
            drift_total(a, p) <= i64::MAX,
            coherence_fits(fv, a),
            a.len() * 100 <= i64::MAX,
            overlap as int == overlap_count(a.subrange(0, i as int), p),
            drift as int == drift_total(a.subrange(0, i as int), p),
            coh_sum as int == coherence_terms(fv, a.subrange(0, i as int)).0,
            coh_count as int == coherence_terms(fv, a.subrange(0, i as int)).1,
        decreases a.len() - i,
    {
        let id = &active_anchor_map[i].0;
        let cur = active_anchor_map[i].1;
        let ghost s = a.subrange(0, i + 1);
        proof {
            assert(s.drop_last() =~= a.subrange(0, i as int));
            assert(s.last() == a[i as int]);
            assert(a[i as int] == (id@, cur));
            lemma_drift_prefix(a, p, i + 1);
            lemma_drift_prefix(a, p, i as int);
            lemma_overlap_bound(a.subrange(0, i as int), p);
            lemma_coherence_bounds(fv, a.subrange(0, i as int));
        }
        match value_of(previous_anchor_map, id) {
            Some(prev) => {
                proof {
                    assert(drift_total(s, p) == drift_total(a.subrange(0, i as int), p) + abs_int(cur - prev));
                    assert(overlap_count(s, p) == overlap_count(a.subrange(0, i as int), p) + 1);
                }
                overlap = overlap + 1;
                let d = cur - prev;
                let ad = if d < 0 { -d } else { d };
                drift = drift + ad;
            },
            None => {
                assert(drift_total(s, p) == drift_total(a.subrange(0, i as int), p));
                assert(overlap_count(s, p) == overlap_count(a.subrange(0, i as int), p));
            },
        }
        match field.concept(id.as_str()) {
            Some(point) => {
                proof {
                    let w = choose|w: int| 0 <= w < fv.len() && fv[w].0 == id@ && fv[w].1 == *point;
                    lemma_point_of(fv, id@, w);
                    assert(coherence_fits(fv, a) ==> match point_of(fv, a[i as int].0) {
                        Some(pt) => abs_int(pt.intensity - a[i as int].1) <= i64::MAX,
                        None => true,
                    });
                }
                let d = point.intensity - cur;
                let ad = if d < 0 { -d } else { d };
                let term: i64 = if 100 - ad > 0 { 100 - ad } else { 0 };
                assert(term == agreement(point.intensity, cur));
                assert(coherence_terms(fv, s) == (coherence_terms(fv, a.subrange(0, i as int)).0 + term,
                    coherence_terms(fv, a.subrange(0, i as int)).1 + 1));
                coh_sum = coh_sum + term;
                coh_count = coh_count + 1;
            },
            None => {
                proof {
                    assert(!exists|w: int| 0 <= w < fv.len() && fv[w].0 == id@);
                    assert(coherence_terms(fv, s) == coherence_terms(fv, a.subrange(0, i as int)));
                }
            },
        }
        i = i + 1;
    }
    assert(a.subrange(0, a.len() as int) =~= a);
    proof {
        lemma_overlap_bound(a, p);
        lemma_coherence_bounds(fv, a);
    }
    let stability: i64 = if previous_anchor_map.len() == 0 {
        100
    } else {
        (overlap as i64) * 100 / (previous_anchor_map.len() as i64)
    };
    let coherence: i64 = if coh_count == 0 { 0 } else { coh_sum / coh_count };
    (overlap, drift, stability, coherence)
}

/// Lets the active anchors and the shared field guide the fused weights (see
/// `anchor_guided`), then puts the constraints in constraint order. Without
/// a bias the constraints come back as they were.
pub fn anchor_guided_fusion(
    fused_constraints: Vec<SemanticConstraint>,
    registry: &AnchorRegistry,
    min_persistence: usize,
    shared_field: &SemanticField,
    fusion_bias: i64,
) -> (out: Vec<SemanticConstraint>)
    ensures
        bias_byte(fusion_bias) == 0 ==> out@ == fused_constraints@,
        bias_byte(fusion_bias) != 0 ==> out@ == stable_sorted(
            anchor_guided(
                fused_constraints@,
                registry.anchors@,
                min_persistence,
                shared_field@,
                bias_byte(fusion_bias),
            ),
        ),
{
    let bias: u8 = if fusion_bias <= 0 { 0 } else { (fusion_bias % 256) as u8 };
    if bias == 0 {
        return fused_constraints;
    }
    let active = active_anchor_energies(registry, min_persistence);
    let ghost anchors = registry.anchors@;
    let ghost fv = shared_field@;
    let ghost target = anchor_guided(fused_constraints@, anchors, min_persistence, fv, bias as int);
    let mut next_all: Vec<SemanticConstraint> = Vec::new();
    let mut i: usize = 0;
    while i < fused_constraints.len()
        invariant
            i <= fused_constraints@.len(),
            anchors == registry.anchors@,
            fv == shared_field@,
            bias as int == bias_byte(fusion_bias),
            0 < bias,
            target == anchor_guided(fused_constraints@, anchors, min_persistence, fv, bias as int),
            strictly_sorted_texts(entry_ids(active@)),
            entry_ids(active@).to_set() == active_ids(anchors, min_persistence).to_set(),
            forall|k: int|
                0 <= k < active@.len() ==> active_energy(anchors, min_persistence, (#[trigger] active@[k]).0@)
                    == Some(active@[k].1),
            next_all@ == target.subrange(0, i as int),
        decreases fused_constraints@.len() - i,
    {
        let c = &fused_constraints[i];
        let mut concept = c.subject.clone();
        push_str(&mut concept, ":");
        push_str(&mut concept, c.predicate.as_str());
        proof {
            reveal_strlit(":");
        }
        assert(concept@ == constraint_concept(*c));
        let mut w: u8 = c.weight;
        let found = value_of(&active, &concept);
        proof {
            lemma_value_in_sorted(active@, concept@);
            if exists|k: int| 0 <= k < active@.len() && active@[k].0@ == concept@ {
                let k = choose|k: int| 0 <= k < active@.len() && active@[k].0@ == concept@;
                assert(found == Some(active@[k].1));
            } else {
                assert(found is None);
                if active_energy(anchors, min_persistence, concept@) is Some {
                    lemma_active_energy_listed(anchors, min_persistence, concept@);
                    assert(entry_ids(active@).to_set().contains(concept@));
                    let k = choose|k: int| 0 <= k < entry_ids(active@).len() && entry_ids(active@)[k] == concept@;
                    assert(active@[k].0@ == concept@);
                }
            }
            assert(found == active_energy(anchors, min_persistence, constraint_concept(*c)));
        }
        match found {
            Some(anchor_e) => {
                if (anchor_e >= 0) == c.affirmed {
                    let step: u8 = if bias < 20 { bias } else { 20 };
                    w = if w as u16 + step as u16 > 255 { 255 } else { w + step };
                } else {
                    let room: u8 = if w > 0 { w - 1 } else { 0 };
                    w = w - if bias < room { bias } else { room };
                }
            },
            None => {},
        }
        let ghost after_anchor = w;
        match shared_field.concept(concept.as_str()) {
            Some(point) => {
                proof {
                    let q = choose|q: int| 0 <= q < fv.len() && fv[q].0 == concept@ && fv[q].1 == *point;
                    lemma_point_of(fv, concept@, q);
                }
                if (point.intensity >= 0) == c.affirmed {
                    w = if w > 253 { 255 } else { w + 2 };
                } else {
                    w = if w > 0 { w - 1 } else { 0 };
                }
            },
            None => {
                proof {
                    assert(!exists|q: int| 0 <= q < fv.len() && fv[q].0 == concept@);
                }
            },
        }
        let mut next = c.duplicate();
        next.weight = w;
        proof {
            assert(fused_constraints@[i as int] == *c);
            assert(next == target[i as int]);
        }
        let ghost before = next_all@;
        next_all.push(next);
        assert(target.subrange(0, i + 1) =~= before.push(target[i as int]));
        i = i + 1;
    }
    assert(target.subrange(0, fused_constraints@.len() as int) =~= target);
    sort_constraints(next_all.as_slice())
}

/// `s` with every `:` replaced by `_`.
pub fn replace_colons(s: &str) -> (r: String)
    ensures
        r@ == colons_to_underscores(s@),
{
    let n = s.unicode_len();
    let mut out = String::new();
    let mut i: usize = 0;
    proof {
        reveal_strlit("_");
    }
    while i < n
        invariant
            n == s@.len(),
            i <= n,
            out@ == colons_to_underscores(s@.subrange(0, i as int)),
        decreases n - i,
    {
        let c = s.get_char(i);
        let ghost before = out@;
        proof {
            reveal_strlit("_");
            assert(s@.subrange(0, i + 1) =~= s@.subrange(0, i as int).push(c));
        }
        if c == ':' {
            out.append("_");
        } else {
            let piece = s.substring_char(i, i + 1);
            assert(piece@ =~= seq![c]);
            out.append(piece);
        }
        assert(out@ =~= colons_to_underscores(s@.subrange(0, i + 1)));
        i = i + 1;
    }
    assert(s@.subrange(0, n as int) =~= s@);
    out
}

/// The count entered last for `id` in `hits`, 0 where there is none.
fn hit_count_of(hits: &Vec<(String, usize)>, id: &String) -> (r: usize)
    ensures
        r == hit_count(hits@, id@),
{
    let mut j: usize = hits.len();
    assert(hits@.subrange(0, hits@.len() as int) =~= hits@);
    while j > 0
        invariant
            j <= hits@.len(),
            hit_count(hits@, id@) == hit_count(hits@.subrange(0, j as int), id@),
        decreases j,
    {
        j = j - 1;
        proof {
            assert(hits@.subrange(0, j + 1).drop_last() =~= hits@.subrange(0, j as int));
        }
        if same_text(&hits[j].0, id) {
            return hits[j].1;
        }
    }
    assert(hits@.subrange(0, 0) =~= Seq::<(String, usize)>::empty());
    0
}

/// The constraints that the persistent emergent candidates contribute (see
/// `is_emergent_constraint`), in constraint order; a candidate counts as
/// persistent once its hits reach `min_persistence` (at least 1).
pub fn synthesize_emergent_constraints(
    candidates: &Vec<EmergentConceptCandidate>,
    hits: &Vec<(String, usize)>,
    min_persistence: usize,
    weight: u8,
) -> (out: Vec<SemanticConstraint>)
    ensures
        exists|mid: Seq<SemanticConstraint>|
            #[trigger] emergent_constraints_for(mid, persistent_candidates(candidates@, hits@, min_persistence), weight)
                && out@ == stable_sorted(mid),
{
    let floor: usize = if min_persistence > 0 { min_persistence } else { 1 };
    let w: u8 = if weight > 0 { weight } else { 1 };
    let mut mid: Vec<SemanticConstraint> = Vec::new();
    let mut i: usize = 0;
    while i < candidates.len()
        invariant
            i <= candidates@.len(),
            floor == (if min_persistence > 0 { min_persistence } else { 1 }),
            w == (if weight > 0 { weight } else { 1 }),
            mid@.len() == persistent_candidates(candidates@.subrange(0, i as int), hits@, min_persistence).len(),
            forall|k: int|
                0 <= k < mid@.len() ==> is_emergent_constraint(
                    #[trigger] mid@[k],
                    persistent_candidates(candidates@.subrange(0, i as int), hits@, min_persistence)[k],
                    weight,
                ),
        decreases candidates@.len() - i,
    {
        let c = &candidates[i];
        proof {
            assert(candidates@.subrange(0, i + 1).drop_last() =~= candidates@.subrange(0, i as int));
            assert(candidates@.subrange(0, i + 1).last() == *c);
        }
        let persistence = hit_count_of(hits, &c.id);
        if persistence >= floor {
            let mut predicate = String::new();
            predicate.append("emergent/");
            let tail = replace_colons(c.id.as_str());
            predicate.append(tail.as_str());
            proof {
                reveal_strlit("emergent/");
            }
            let x = SemanticConstraint::assertion(c.subject.as_str(), predicate.as_str(), true, w);
            mid.push(x);
        }
        i = i + 1;
    }
    assert(candidates@.subrange(0, candidates@.len() as int) =~= candidates@);
    let out = sort_constraints(mid.as_slice());
    assert(emergent_constraints_for(mid@, persistent_candidates(candidates@, hits@, min_persistence), weight));
    out
}

/// The candidate entered last for `id` in `latest`.
fn latest_candidate_of<'a>(latest: &'a Vec<(String, EmergentConceptCandidate)>, id: &String) -> (r: Option<
    &'a EmergentConceptCandidate,
>)
    ensures
        match r {
            Some(c) => latest_candidate(latest@, id@) == Some(*c),
            None => latest_candidate(latest@, id@) is None,
        },
{
    let mut j: usize = latest.len();
    assert(latest@.subrange(0, latest@.len() as int) =~= latest@);
    while j > 0
        invariant
            j <= latest@.len(),
            latest_candidate(latest@, id@) == latest_candidate(latest@.subrange(0, j as int), id@),
        decreases j,
    {
        j = j - 1;
        proof {
            assert(latest@.subrange(0, j + 1).drop_last() =~= latest@.subrange(0, j as int));
        }
        if same_text(&latest[j].0, id) {
            return Some(&latest[j].1);
        }
    }
    assert(latest@.subrange(0, 0) =~= Seq::<(String, EmergentConceptCandidate)>::empty());
    None
}

/// The content hash of the emergent concept of `c` with `hits` hits.
fn emergent_hash_text(c: &EmergentConceptCandidate, hits: usize) -> (r: String)
    ensures
        r@ == emergent_hash(*c, hits),
{
    let mut score = String::new();
    push_i64(&mut score, c.resonance_score);
    let mut count = String::new();
    push_usize(&mut count, hits);
    let mut parts: Vec<String> = Vec::new();
    parts.push(json_str_text(c.id.as_str()));
    parts.push(json_str_text(c.subject.as_str()));
    parts.push(json_strs_text(&c.basis_anchors));
    parts.push(json_strs_text(&c.members));
    parts.push(score);
    parts.push(count);
    let mut text = String::new();
    push_json_list(&mut text, &parts);
    assert(views(parts@) =~= seq![
        json_str(c.id@),
        json_str(c.subject@),
        json_strs(views(c.basis_anchors@)),
        json_strs(views(c.members@)),
        dec_int(c.resonance_score as int),
        dec_nat(hits as nat),
    ]);
    assert(text@ =~= json_list(views(parts@)));
    json_hash_text(&text)
}

/// The emergent concepts: for each id of `hits` (in their order, which for
/// entries of a map is id order) whose hits
/// reach `min_persistence` (at least 1) and that has a latest candidate,
/// that candidate with its hits and content hash.
pub fn materialize_emergent_concepts(
    hits: &Vec<(String, usize)>,
    latest: &Vec<(String, EmergentConceptCandidate)>,
    min_persistence: usize,
) -> (r: Result<Vec<EmergentConcept>, InvariantViolation>)
    ensures
        r is Ok,
        ({
            let kept = materialized(hits@, latest@, min_persistence);
            let out = r->Ok_0@;
            &&& out.len() == kept.len()
            &&& forall|k: int| 0 <= k < out.len() ==> is_emergent_concept(#[trigger] out[k], kept[k].0, kept[k].1)
        }),
{
    let floor: usize = if min_persistence > 0 { min_persistence } else { 1 };
    let mut out: Vec<EmergentConcept> = Vec::new();
    let mut i: usize = 0;
    while i < hits.len()
        invariant
            i <= hits@.len(),
            floor == (if min_persistence > 0 { min_persistence } else { 1 }),
            out@.len() == materialized(hits@.subrange(0, i as int), latest@, min_persistence).len(),
            forall|k: int|
                0 <= k < out@.len() ==> is_emergent_concept(
                    #[trigger] out@[k],
                    materialized(hits@.subrange(0, i as int), latest@, min_persistence)[k].0,
                    materialized(hits@.subrange(0, i as int), latest@, min_persistence)[k].1,
                ),
        decreases hits@.len() - i,
    {
        let id = &hits[i].0;
        let n = hits[i].1;
        proof {
            assert(hits@.subrange(0, i + 1).drop_last() =~= hits@.subrange(0, i as int));
            assert(hits@.subrange(0, i + 1).last() == hits@[i as int]);
        }
        if n >= floor {
            match latest_candidate_of(latest, id) {
                Some(c) => {
                    let canonical_hash = emergent_hash_text(c, n);
                    let concept = EmergentConcept {
                        id: c.id.clone(),
                        subject: c.subject.clone(),
                        basis_anchors: copy_texts(&c.basis_anchors),
                        members: copy_texts(&c.members),
                        resonance_score: c.resonance_score,
                        persistence_hits: n,
                        canonical_hash,
                    };
                    out.push(concept);
                },
                None => {},
            }
        }
        i = i + 1;
    }
    assert(hits@.subrange(0, hits@.len() as int) =~= hits@);
    Ok(out)
}

fn copy_anchor(a: &ConceptAnchor) -> (r: ConceptAnchor)
    ensures
        r == *a,
{
    ConceptAnchor {
        id: a.id.clone(),
        canonical_hash: a.canonical_hash.clone(),
        energy: a.energy,
        persistence_hits: a.persistence_hits,
        frame_count: a.frame_count,
    }
}

fn anchor_precedes(a: &ConceptAnchor, b: &ConceptAnchor) -> (r: bool)
    ensures
        r == (anchor_first())(*a, *b),
{
    less_than(a.id.as_str(), b.id.as_str()) || (same_text(&a.id, &b.id) && less_than(
        a.canonical_hash.as_str(),
        b.canonical_hash.as_str(),
    ))
}

/// The registry of the active anchors only, in anchor order (by id, then
/// canonical hash; equal ones kept in registry order).
pub fn registered_anchor_registry(registry: &AnchorRegistry, min_persistence: usize) -> (r: AnchorRegistry)
    ensures
        r.anchors@ == ordered(active_anchors(registry.anchors@, min_persistence), anchor_first()),
{
    let anchors = &registry.anchors;
    let floor: usize = if min_persistence > 0 { min_persistence } else { 1 };
    let mut out: Vec<ConceptAnchor> = Vec::new();
    let mut i: usize = 0;
    while i < anchors.len()
        invariant
            i <= anchors@.len(),
            floor == (if min_persistence > 0 { min_persistence } else { 1 }),
            out@ == ordered(active_anchors(anchors@.subrange(0, i as int), min_persistence), anchor_first()),
        decreases anchors@.len() - i,
    {
        proof {
            assert(anchors@.subrange(0, i + 1).drop_last() =~= anchors@.subrange(0, i as int));
            assert(anchors@.subrange(0, i + 1).last() == anchors@[i as int]);
        }
        if anchors[i].persistence_hits >= floor {
            let x = copy_anchor(&anchors[i]);
            let mut p: usize = 0;
            while p < out.len() && !anchor_precedes(&x, &out[p])
                invariant
                    p <= out@.len(),
                    forall|k: int| 0 <= k < p ==> !(anchor_first())(x, #[trigger] out@[k]),
                decreases out@.len() - p,
            {
                p = p + 1;
            }
            let ghost before = out@;
            proof {
                lemma_insert_ordered_at(before, x, anchor_first(), p as int);
                let prev = active_anchors(anchors@.subrange(0, i as int), min_persistence);
                assert(active_anchors(anchors@.subrange(0, i + 1), min_persistence) == prev.push(x));
                assert(prev.push(x).drop_last() =~= prev);
            }
            out.insert(p, x);
            assert(out@ =~= before.subrange(0, p as int) + seq![x] + before.subrange(p as int, before.len() as int));
        }
        i = i + 1;
    }
    assert(anchors@.subrange(0, anchors@.len() as int) =~= anchors@);
    AnchorRegistry { anchors: out }
}

// ── laws ─────────────────────────────────────────────────────────────────────

proof fn lemma_insert_sorted_members(s: Seq<SemanticConstraint>, x: SemanticConstraint)
    ensures
        forall|i: int|
            0 <= i < insert_sorted(s, x).len() ==> #[trigger] insert_sorted(s, x)[i] == x || s.contains(
                insert_sorted(s, x)[i],
            ),
    decreases s.len(),
{
    if s.len() > 0 {
        lemma_insert_sorted_members(s.drop_first(), x);
        let r = insert_sorted(s, x);
        assert forall|i: int| 0 <= i < r.len() implies #[trigger] r[i] == x || s.contains(r[i]) by {
            if !crate::cognition::evaluator::constraint_lt(x, s[0]) {
                if i > 0 {
                    let t = insert_sorted(s.drop_first(), x);
                    assert(r[i] == t[i - 1]);
                    if r[i] != x {
                        let w = choose|w: int| 0 <= w < s.drop_first().len() && s.drop_first()[w] == t[i - 1];
                        assert(s[w + 1] == r[i]);
                    }
                } else {
                    assert(s[0] == r[0]);
                }
            } else if i > 0 {
                assert(r[i] == s[i - 1]);
            }
        }
    }
}

proof fn lemma_stable_sorted_members(s: Seq<SemanticConstraint>)
    ensures
        forall|i: int| 0 <= i < stable_sorted(s).len() ==> s.contains(#[trigger] stable_sorted(s)[i]),
    decreases s.len(),
{
    if s.len() > 0 {
        let d = s.drop_last();
        lemma_stable_sorted_members(d);
        lemma_insert_sorted_members(stable_sorted(d), s.last());
        assert forall|i: int| 0 <= i < stable_sorted(s).len() implies s.contains(#[trigger] stable_sorted(s)[i]) by {
            let e = stable_sorted(s)[i];
            if e == s.last() {
                assert(s[s.len() - 1] == e);
            } else {
                let w = choose|w: int| 0 <= w < stable_sorted(d).len() && stable_sorted(d)[w] == e;
                let v = choose|v: int| 0 <= v < d.len() && d[v] == stable_sorted(d)[w];
                assert(s[v] == e);
            }
        }
    }
}

proof fn lemma_fused_prefix_keys(cs: Seq<SemanticConstraint>, j: int)
    requires
        0 <= j <= cs.len(),
    ensures
        forall|a: int, b: int|
            0 <= a < b < fused_prefix(cs, j).len() ==> constraint_key(#[trigger] fused_prefix(cs, j)[a])
                != constraint_key(#[trigger] fused_prefix(cs, j)[b]),
        forall|a: int|
            0 <= a < fused_prefix(cs, j).len() ==> exists|q: int|
                0 <= q < j && constraint_key(#[trigger] fused_prefix(cs, j)[a]) == constraint_key(cs[q]),
    decreases j,
{
    if j > 0 {
        lemma_fused_prefix_keys(cs, j - 1);
        let prev = fused_prefix(cs, j - 1);
        let k = constraint_key(cs[j - 1]);
        if first_of_key(cs, j - 1) && exists|i: int| is_fusion_pick(cs, k, i) {
            let i = choose|i: int| is_fusion_pick(cs, k, i);
            let f = fused_of(cs, k);
            assert(constraint_key(f) == constraint_key(cs[i]));
            let cur = fused_prefix(cs, j);
            assert(cur == prev.push(f));
            assert forall|a: int, b: int| 0 <= a < b < cur.len() implies constraint_key(#[trigger] cur[a])
                != constraint_key(#[trigger] cur[b]) by {
                if b == cur.len() - 1 {
                    assert(cur[a] == prev[a]);
                    let q = choose|q: int| 0 <= q < j - 1 && constraint_key(prev[a]) == constraint_key(cs[q]);
                    assert(constraint_key(cs[q]) != k);
                } else {
                    assert(cur[a] == prev[a] && cur[b] == prev[b]);
                }
            }
            assert forall|a: int| 0 <= a < cur.len() implies exists|q: int|
                0 <= q < j && constraint_key(#[trigger] cur[a]) == constraint_key(cs[q]) by {
                if a == cur.len() - 1 {
                    assert(constraint_key(cur[a]) == constraint_key(cs[j - 1]));
                } else {
                    assert(cur[a] == prev[a]);
                    let q = choose|q: int| 0 <= q < j - 1 && constraint_key(prev[a]) == constraint_key(cs[q]);
                    assert(constraint_key(cur[a]) == constraint_key(cs[q]));
                }
            }
        }
    }
}

/// Fusion leaves no conflict: taken as one frame, the fused constraints hold
/// no key (subject, predicate, object) both affirmed and negated.
pub proof fn lemma_fusion_is_conflict_free(by_frame: Seq<Vec<SemanticConstraint>>, fused: Vec<SemanticConstraint>)
    requires
        fused@ == stable_sorted(
            fused_prefix(frame_constraints(by_frame), frame_constraints(by_frame).len() as int),
        ),
    ensures
        conflict_keys(frame_constraints(seq![fused])).len() == 0,
{
    let cs = frame_constraints(by_frame);
    let x = fused_prefix(cs, cs.len() as int);
    let one = seq![fused];
    assert(one.drop_last() =~= Seq::<Vec<SemanticConstraint>>::empty());
    assert(frame_constraints(one.drop_last()) == Seq::<SemanticConstraint>::empty());
    assert(one.last() == fused);
    assert(frame_constraints(one) == frame_constraints(one.drop_last()) + one.last()@);
    assert(frame_constraints(one) =~= fused@);
    lemma_fused_prefix_keys(cs, cs.len() as int);
    lemma_stable_sorted_members(x);
    let f = fused@;
    assert forall|k: (Seq<char>, Seq<char>, Option<Seq<char>>)| !conflict_keys(f).contains(k) by {
        if conflict_keys(f).contains(k) {
            let a = choose|i: int| 0 <= i < f.len() && constraint_key(#[trigger] f[i]) == k && f[i].affirmed == true;
            let b = choose|i: int| 0 <= i < f.len() && constraint_key(#[trigger] f[i]) == k && f[i].affirmed == false;
            let ia = choose|i: int| 0 <= i < x.len() && x[i] == f[a];
            let ib = choose|i: int| 0 <= i < x.len() && x[i] == f[b];
            assert(ia != ib);
            if ia < ib {
                assert(constraint_key(x[ia]) != constraint_key(x[ib]));
            } else {
                assert(constraint_key(x[ib]) != constraint_key(x[ia]));
            }
        }
    }
    assert(conflict_keys(f) =~= Set::empty());
}

} // verus!
