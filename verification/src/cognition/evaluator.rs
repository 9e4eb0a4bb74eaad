//! The constraint evaluation engine: checks single constraints, finds
//! polarity conflicts, orders and resolves constraint sets, turns
//! constraints into nodes and nodes into a semantic field, and picks a
//! subject's sense by field interference.
use vstd::prelude::*;
use crate::cognition::constraint::{constraint_key, opt_view, SemanticConstraint};
use crate::cognition::node::{node_id, SemanticNode};
use crate::cognition::phase61_structural_recovery::trunc_div;
use crate::cognition::scheduler::{is_stable_id_order, ScheduledTask, TaskScheduler};
use crate::geom::field::{sorted_keys, upsert, FieldEntries, FieldPoint, SemanticField};
use crate::geom::invariants::InvariantViolation;
use crate::geom::space::{abs_int, manhattan, Coordinate3};
use crate::text::{dec_nat, lemma_text_lt_irreflexive, lemma_text_lt_total,
    lemma_text_lt_transitive, less_than, push_str, push_u64, push_usize, same_text, strip_prefix_text, text,
    text_lt, trim_text, trim_ws, views};

verus! {

/// The verdict on one constraint.
#[derive(Debug, Clone, Copy, PartialEq, Eq, Structural)]
pub enum ConstraintStatus {
    Satisfied,
    Violated,
}

/// One sense of a subject with its interference score.
#[derive(Debug, Clone, PartialEq, Eq)]
pub struct SenseInterferenceScore {
    pub concept: String,
    pub support: i64,
    pub interference: i64,
    pub score: i64,
}

/// The sense chosen for a subject, with every candidate in rank order.
#[derive(Debug, Clone, PartialEq, Eq)]
pub struct DisambiguationDecision {
    pub subject: String,
    pub selected_concept: String,
    pub score_gap: i64,
    pub unresolved: bool,
    pub candidates: Vec<SenseInterferenceScore>,
}

/// What a grouped contradiction resolution did.
#[derive(Debug, Clone, PartialEq, Eq)]
pub struct ParallelResolutionSummary {
    pub worker_count: usize,
    pub groups_processed: usize,
    pub conflicts_resolved: usize,
}

/// Evaluates semantic constraints.
#[derive(Debug)]
pub struct ConstraintEvalEngine {}

impl Default for ConstraintEvalEngine {
    /// The engine; it holds no state.
    fn default() -> (e: Self)
        ensures
            e == (ConstraintEvalEngine {}),
    {
        ConstraintEvalEngine {}
    }
}

// ── model ────────────────────────────────────────────────────────────────────

/// The concept a constraint becomes: subject, a colon, predicate.
pub open spec fn constraint_concept(c: SemanticConstraint) -> Seq<char> {
    c.subject@ + ":"@ + c.predicate@
}

/// `n` is the node of constraint `c`.
pub open spec fn is_node_of(n: SemanticNode, c: SemanticConstraint) -> bool {
    &&& n.concept@ == constraint_concept(c)
    &&& n.polarity == c.affirmed
    &&& n.confidence == c.weight
    &&& n.id@ == node_id(constraint_concept(c), c.affirmed, c.weight)
}

/// The point of the node at position `idx`: x is the position, y the sign
/// of the polarity, z the confidence; the intensity is the signed confidence.
pub open spec fn node_point(idx: int, n: SemanticNode) -> FieldPoint {
    FieldPoint {
        position: Coordinate3 {
            x: idx as i64,
            y: if n.polarity {
                1i64
            } else {
                -1i64
            },
            z: n.confidence as i64,
        },
        intensity: if n.polarity {
            n.confidence as i64
        } else {
            (-(n.confidence as int)) as i64
        },
    }
}

/// The field the nodes project to: each node's point set in turn, a later
/// node replacing an earlier one with the same concept.
pub open spec fn projected(nodes: Seq<SemanticNode>) -> FieldEntries
    decreases nodes.len(),
{
    if nodes.len() == 0 {
        Seq::empty()
    } else {
        upsert(
            projected(nodes.drop_last()),
            nodes.last().concept@,
            node_point(nodes.len() - 1, nodes.last()),
        )
    }
}

/// A constraint is malformed when its subject or predicate is blank.
pub open spec fn is_malformed(c: SemanticConstraint) -> bool {
    trim_ws(c.subject@).len() == 0 || trim_ws(c.predicate@).len() == 0
}

/// The verdict on a well-formed constraint: violated exactly at weight zero.
pub open spec fn status_of(c: SemanticConstraint) -> ConstraintStatus {
    if c.weight == 0 {
        ConstraintStatus::Violated
    } else {
        ConstraintStatus::Satisfied
    }
}

/// `e` is the consistency violation with this message and these terms.
pub open spec fn is_consistency(e: InvariantViolation, message: Seq<char>, terms: Seq<Seq<char>>) -> bool {
    &&& e matches InvariantViolation::Consistency { message: m, contradicting_terms: t }
    &&& m@ == message
    &&& views(t@) == terms
}

/// The first position `j` with `from <= j < i` whose constraint has the key of
/// constraint `i`.
pub open spec fn first_same_key(s: Seq<SemanticConstraint>, i: int, from: int) -> Option<int>
    decreases i - from,
{
    if from >= i {
        None
    } else if constraint_key(s[from]) == constraint_key(s[i]) {
        Some(from)
    } else {
        first_same_key(s, i, from + 1)
    }
}

pub open spec fn conflict_message(c: SemanticConstraint) -> Seq<char> {
    "Conflict on "@ + c.subject@ + ":"@ + c.predicate@ + " polarity mismatch"@
}

/// The conflicts among the first `n` constraints: each constraint whose
/// first earlier constraint with the same key has the other polarity, as
/// (earlier position, position, message), in position order.
pub open spec fn conflicts_upto(s: Seq<SemanticConstraint>, n: int) -> Seq<(int, int, Seq<char>)>
    decreases n,
{
    if n <= 0 {
        Seq::empty()
    } else {
        let prev = conflicts_upto(s, n - 1);
        match first_same_key(s, n - 1, 0) {
            Some(j) => if s[j].affirmed != s[n - 1].affirmed {
                prev.push((j, n - 1, conflict_message(s[n - 1])))
            } else {
                prev
            },
            None => prev,
        }
    }
}

pub open spec fn conflicts_of(s: Seq<SemanticConstraint>) -> Seq<(int, int, Seq<char>)> {
    conflicts_upto(s, s.len() as int)
}

/// Absent objects sort first; present ones by text.
pub open spec fn opt_text_lt(a: Option<Seq<char>>, b: Option<Seq<char>>) -> bool {
    match (a, b) {
        (None, Some(_)) => true,
        (Some(x), Some(y)) => text_lt(x, y),
        _ => false,
    }
}

/// The order of resolved constraints: by subject, predicate, object,
/// polarity (negated first) and weight.
pub open spec fn constraint_lt(a: SemanticConstraint, b: SemanticConstraint) -> bool {
    ||| text_lt(a.subject@, b.subject@)
    ||| a.subject@ == b.subject@ && text_lt(a.predicate@, b.predicate@)
    ||| a.subject@ == b.subject@ && a.predicate@ == b.predicate@ && opt_text_lt(
        opt_view(a.object),
        opt_view(b.object),
    )
    ||| a.subject@ == b.subject@ && a.predicate@ == b.predicate@ && opt_view(a.object) == opt_view(
        b.object,
    ) && !a.affirmed && b.affirmed
    ||| a.subject@ == b.subject@ && a.predicate@ == b.predicate@ && opt_view(a.object) == opt_view(
        b.object,
    ) && a.affirmed == b.affirmed && a.weight < b.weight
}

/// `x` inserted into `s` before the first element that sorts after it.
pub open spec fn insert_sorted(s: Seq<SemanticConstraint>, x: SemanticConstraint) -> Seq<SemanticConstraint>
    decreases s.len(),
{
    if s.len() == 0 {
        seq![x]
    } else if constraint_lt(x, s[0]) {
        seq![x] + s
    } else {
        seq![s[0]] + insert_sorted(s.drop_first(), x)
    }
}

/// `s` in constraint order, equal constraints kept in their order (a stable
/// sort).
pub open spec fn stable_sorted(s: Seq<SemanticConstraint>) -> Seq<SemanticConstraint>
    decreases s.len(),
{
    if s.len() == 0 {
        Seq::empty()
    } else {
        insert_sorted(stable_sorted(s.drop_last()), s.last())
    }
}


// ── sense disambiguation model ───────────────────────────────────────────────

/// A sense score as plain values: concept, support, interference, score.
pub type ScoreView = (Seq<char>, int, int, int);

pub open spec fn has_prefix(t: Seq<char>, p: Seq<char>) -> bool {
    t.len() >= p.len() && t.subrange(0, p.len() as int) == p
}

/// The entries of `s` whose concept starts with `p`, in order.
pub open spec fn with_prefix(s: FieldEntries, p: Seq<char>) -> FieldEntries
    decreases s.len(),
{
    if s.len() == 0 {
        Seq::empty()
    } else if has_prefix(s.last().0, p) {
        with_prefix(s.drop_last(), p).push(s.last())
    } else {
        with_prefix(s.drop_last(), p)
    }
}

/// The senses of `subject` in a field: its concepts `subject:…`.
pub open spec fn senses_of(s: FieldEntries, subject: Seq<char>) -> FieldEntries {
    with_prefix(s, subject + ":"@)
}

/// What candidate `j` adds to the interference of candidate `i`: the
/// intensity difference times 100 over the taxicab distance plus one,
/// rounded toward zero; nothing from a candidate with the same concept.
pub open spec fn pair_term(c: FieldEntries, i: int, j: int) -> int {
    if c[i].0 == c[j].0 {
        0
    } else {
        trunc_div(
            (c[i].1.intensity - c[j].1.intensity) * 100,
            manhattan(c[i].1.position, c[j].1.position) + 1,
        )
    }
}

/// The interference of candidate `i` from the first `k` candidates.
pub open spec fn interference_upto(c: FieldEntries, i: int, k: int) -> int
    decreases k,
{
    if k <= 0 {
        0
    } else {
        interference_upto(c, i, k - 1) + pair_term(c, i, k - 1)
    }
}

pub open spec fn support_of(c: FieldEntries, i: int) -> int {
    c[i].1.intensity * 1000
}

pub open spec fn score_of(c: FieldEntries, i: int) -> int {
    support_of(c, i) + interference_upto(c, i, c.len() as int)
}

/// The scores of the candidates, in candidate order.
pub open spec fn scored(c: FieldEntries) -> Seq<ScoreView> {
    Seq::new(
        c.len(),
        |i: int| (c[i].0, support_of(c, i), interference_upto(c, i, c.len() as int), score_of(c, i)),
    )
}

/// Higher score first; equal scores by concept.
pub open spec fn ranks_before(a: ScoreView, b: ScoreView) -> bool {
    a.3 > b.3 || (a.3 == b.3 && text_lt(a.0, b.0))
}

pub open spec fn score_views(v: Seq<SenseInterferenceScore>) -> Seq<ScoreView> {
    v.map_values(|x: SenseInterferenceScore| (x.concept@, x.support as int, x.interference as int, x.score as int))
}

/// `r` holds the scores of the candidates `c`, each once, in rank order.
pub open spec fn is_ranking(r: Seq<ScoreView>, c: FieldEntries) -> bool {
    &&& r.to_multiset() == scored(c).to_multiset()
    &&& forall|a: int, b: int| 0 <= a < b < r.len() ==> ranks_before(#[trigger] r[a], #[trigger] r[b])
}

pub open spec fn fits_i64(x: int) -> bool {
    i64::MIN <= x <= i64::MAX
}

/// The arithmetic between two points stays within `i64`.
pub open spec fn pair_fits(a: FieldPoint, b: FieldPoint) -> bool {
    &&& fits_i64((a.intensity - b.intensity) * 100)
    &&& abs_int(a.position.x - b.position.x) <= i64::MAX
    &&& abs_int(a.position.y - b.position.y) <= i64::MAX
    &&& abs_int(a.position.z - b.position.z) <= i64::MAX
    &&& manhattan(a.position, b.position) < i64::MAX
}

/// The best score minus the second best stays within `i64`.
pub open spec fn top_gap_fits(c: FieldEntries) -> bool {
    forall|i: int, j: int|
        0 <= i < c.len() && 0 <= j < c.len() && i != j && (forall|k: int|
            0 <= k < c.len() && k != i ==> score_of(c, k) <= score_of(c, i)) && (forall|k: int|
            0 <= k < c.len() && k != i && k != j ==> score_of(c, k) <= score_of(c, j))
            ==> #[trigger] score_of(c, i) - #[trigger] score_of(c, j) <= i64::MAX
}

/// Scoring the candidates stays within `i64` at every step.
pub open spec fn senses_fit(c: FieldEntries) -> bool {
    &&& forall|i: int| 0 <= i < c.len() ==> fits_i64(#[trigger] support_of(c, i)) && fits_i64(score_of(c, i))
    &&& forall|i: int, k: int|
        0 <= i < c.len() && 0 <= k <= c.len() ==> fits_i64(#[trigger] interference_upto(c, i, k))
    &&& forall|i: int, j: int|
        0 <= i < c.len() && 0 <= j < c.len() && c[i].0 != c[j].0 ==> pair_fits(
            #[trigger] c[i].1,
            #[trigger] c[j].1,
        )
    &&& top_gap_fits(c)
}

/// `d` is the decision on the candidates `c` of `subject` under `margin`:
/// every candidate in rank order, the first selected, the gap between the
/// first two, unresolved when that gap is at most the margin.
pub open spec fn is_decision(d: DisambiguationDecision, c: FieldEntries, subject: Seq<char>, margin: i64) -> bool {
    &&& d.subject@ == subject
    &&& is_ranking(score_views(d.candidates@), c)
    &&& d.candidates@.len() >= 2
    &&& d.selected_concept@ == d.candidates@[0].concept@
    &&& d.score_gap == d.candidates@[0].score - d.candidates@[1].score
    &&& d.unresolved == (d.score_gap <= margin)
}

pub open spec fn pairs_view(v: Seq<(String, FieldPoint)>) -> FieldEntries {
    v.map_values(|e: (String, FieldPoint)| (e.0@, e.1))
}


// ── grouped resolution model ─────────────────────────────────────────────────

/// A constraint key as plain values.
pub type KeyView = (Seq<char>, Seq<char>, Option<Seq<char>>);

/// Key order: subject, then predicate, then object (absent first).
pub open spec fn key_lt(a: KeyView, b: KeyView) -> bool {
    ||| text_lt(a.0, b.0)
    ||| a.0 == b.0 && text_lt(a.1, b.1)
    ||| a.0 == b.0 && a.1 == b.1 && opt_text_lt(a.2, b.2)
}

/// The constraints of `s` with key `k`, in order.
pub open spec fn members(s: Seq<SemanticConstraint>, k: KeyView) -> Seq<SemanticConstraint>
    decreases s.len(),
{
    if s.len() == 0 {
        Seq::empty()
    } else if constraint_key(s.last()) == k {
        members(s.drop_last(), k).push(s.last())
    } else {
        members(s.drop_last(), k)
    }
}

/// The total weight of the members of `g` with polarity `affirmed`.
pub open spec fn weight_sum(g: Seq<SemanticConstraint>, affirmed: bool) -> int
    decreases g.len(),
{
    if g.len() == 0 {
        0
    } else {
        weight_sum(g.drop_last(), affirmed) + if g.last().affirmed == affirmed {
            g.last().weight as int
        } else {
            0
        }
    }
}

/// The first of the heaviest members of `g` with polarity `affirmed`.
pub open spec fn heaviest(g: Seq<SemanticConstraint>, affirmed: bool) -> Option<SemanticConstraint>
    decreases g.len(),
{
    if g.len() == 0 {
        None
    } else {
        let h = heaviest(g.drop_last(), affirmed);
        if g.last().affirmed == affirmed && (h is None || g.last().weight > h->Some_0.weight) {
            Some(g.last())
        } else {
            h
        }
    }
}

pub open spec fn polarity_text(affirmed: bool) -> Seq<char> {
    if affirmed {
        "affirmed"@
    } else {
        "negated"@
    }
}

/// How a group with key `k` is reduced to one constraint: the side with the
/// larger total weight wins (affirmed on a tie); its first heaviest member is
/// kept (the group's first member where that side is empty); where both
/// polarities occur, the kept constraint carries the winning total, capped
/// at 255, and the conflict is reported.
pub open spec fn reduction(k: KeyView, g: Seq<SemanticConstraint>) -> (SemanticConstraint, Option<Seq<char>>) {
    let aw = weight_sum(g, true);
    let nw = weight_sum(g, false);
    let conflict = heaviest(g, true) is Some && heaviest(g, false) is Some;
    let choose_affirmed = aw >= nw;
    let pick = match heaviest(g, choose_affirmed) {
        Some(c) => c,
        None => g[0],
    };
    let total = if choose_affirmed {
        aw
    } else {
        nw
    };
    if conflict {
        (
            SemanticConstraint {
                weight: (if total > 255 {
                    255
                } else {
                    total
                }) as u8,
                ..pick
            },
            Some(
                "resolved conflict on "@ + k.0 + ":"@ + k.1 + " -> polarity="@ + polarity_text(
                    choose_affirmed,
                ) + " (affirmed_weight="@ + dec_nat(aw as nat) + ", negated_weight="@ + dec_nat(
                    nw as nat,
                ) + ")"@,
            ),
        )
    } else {
        (pick, None)
    }
}

/// Every key's weight totals fit in 16 bits.
pub open spec fn group_weights_fit(s: Seq<SemanticConstraint>) -> bool {
    forall|i: int|
        0 <= i < s.len() ==> weight_sum(members(s, #[trigger] constraint_key(s[i])), true) <= u16::MAX
            && weight_sum(members(s, constraint_key(s[i])), false) <= u16::MAX
}

/// `r` holds one reduced constraint per key of `s`, in key order.
pub open spec fn is_grouped_resolution(r: Seq<SemanticConstraint>, s: Seq<SemanticConstraint>) -> bool {
    &&& forall|a: int, b: int|
        0 <= a < b < r.len() ==> key_lt(constraint_key(#[trigger] r[a]), constraint_key(#[trigger] r[b]))
    &&& forall|m: int|
        0 <= m < r.len() ==> members(s, constraint_key(#[trigger] r[m])).len() > 0 && r[m] == reduction(
            constraint_key(r[m]),
            members(s, constraint_key(r[m])),
        ).0
    &&& forall|j: int|
        0 <= j < s.len() ==> exists|m: int|
            0 <= m < r.len() && constraint_key(#[trigger] r[m]) == constraint_key(#[trigger] s[j])
}

/// The conflict reports of the groups with keys `keys`, in that order.
pub open spec fn conflict_reports(keys: Seq<KeyView>, s: Seq<SemanticConstraint>) -> Seq<Seq<char>>
    decreases keys.len(),
{
    if keys.len() == 0 {
        Seq::empty()
    } else {
        let prev = conflict_reports(keys.drop_last(), s);
        match reduction(keys.last(), members(s, keys.last())).1 {
            Some(msg) => prev.push(msg),
            None => prev,
        }
    }
}

pub open spec fn keys_of(r: Seq<SemanticConstraint>) -> Seq<KeyView> {
    r.map_values(|c: SemanticConstraint| constraint_key(c))
}

// ── lemmas ───────────────────────────────────────────────────────────────────

proof fn lemma_insert_sorted_at(s: Seq<SemanticConstraint>, x: SemanticConstraint, p: int)
    requires
        0 <= p <= s.len(),
        forall|k: int| 0 <= k < p ==> !constraint_lt(x, #[trigger] s[k]),
        p < s.len() ==> constraint_lt(x, s[p]),
    ensures
        insert_sorted(s, x) == s.subrange(0, p) + seq![x] + s.subrange(p, s.len() as int),
    decreases p,
{
    if p == 0 {
        if s.len() == 0 {
            assert(s.subrange(0, 0) + seq![x] + s.subrange(0, 0) =~= seq![x]);
        } else {
            assert(s.subrange(0, 0) + seq![x] + s.subrange(0, s.len() as int) =~= seq![x] + s);
        }
    } else {
        let t = s.drop_first();
        assert forall|k: int| 0 <= k < p - 1 implies !constraint_lt(x, #[trigger] t[k]) by {
            assert(t[k] == s[k + 1]);
        }
        if p - 1 < t.len() {
            assert(t[p - 1] == s[p]);
        }
        lemma_insert_sorted_at(t, x, p - 1);
        assert(s.subrange(0, p) + seq![x] + s.subrange(p, s.len() as int) =~= seq![s[0]] + (t.subrange(
            0,
            p - 1,
        ) + seq![x] + t.subrange(p - 1, t.len() as int)));
    }
}

proof fn lemma_projected_step(nodes: Seq<SemanticNode>, i: int)
    requires
        0 <= i < nodes.len(),
    ensures
        projected(nodes.subrange(0, i + 1)) == upsert(
            projected(nodes.subrange(0, i)),
            nodes[i].concept@,
            node_point(i, nodes[i]),
        ),
{
    let t = nodes.subrange(0, i + 1);
    assert(t.drop_last() =~= nodes.subrange(0, i));
    assert(t.last() == nodes[i]);
}

proof fn lemma_conflicts_step(s: Seq<SemanticConstraint>, n: int)
    requires
        0 <= n,
    ensures
        conflicts_upto(s, n + 1) == (match first_same_key(s, n, 0) {
            Some(j) => if s[j].affirmed != s[n].affirmed {
                conflicts_upto(s, n).push((j, n, conflict_message(s[n])))
            } else {
                conflicts_upto(s, n)
            },
            None => conflicts_upto(s, n),
        }),
{
}


proof fn lemma_with_prefix_sorted(s: FieldEntries, p: Seq<char>)
    requires
        sorted_keys(s),
    ensures
        sorted_keys(with_prefix(s, p)),
        forall|k: int| 0 <= k < with_prefix(s, p).len() ==> s.contains(#[trigger] with_prefix(s, p)[k]),
    decreases s.len(),
{
    if s.len() > 0 {
        let t = s.drop_last();
        assert(sorted_keys(t)) by {
            assert forall|i: int, j: int| 0 <= i < j < t.len() implies text_lt(#[trigger] t[i].0, #[trigger] t[j].0) by {
                assert(t[i] == s[i] && t[j] == s[j]);
            }
        }
        lemma_with_prefix_sorted(t, p);
        let w = with_prefix(t, p);
        assert forall|k: int| 0 <= k < w.len() implies s.contains(#[trigger] w[k]) by {
            let j = choose|j: int| 0 <= j < t.len() && t[j] == w[k];
            assert(s[j] == w[k]);
        }
        if has_prefix(s.last().0, p) {
            let v = w.push(s.last());
            assert forall|k: int| 0 <= k < w.len() implies text_lt(#[trigger] w[k].0, s.last().0) by {
                let j = choose|j: int| 0 <= j < t.len() && t[j] == w[k];
                assert(s[j] == w[k]);
                assert(text_lt(s[j].0, s[s.len() - 1].0));
            }
            assert forall|i: int, j: int| 0 <= i < j < v.len() implies text_lt(#[trigger] v[i].0, #[trigger] v[j].0) by {
                if j == w.len() {
                    assert(v[i] == w[i]);
                } else {
                    assert(v[i] == w[i] && v[j] == w[j]);
                }
            }
            assert forall|k: int| 0 <= k < v.len() implies s.contains(#[trigger] v[k]) by {
                if k == w.len() {
                    assert(s[s.len() - 1] == v[k]);
                } else {
                    assert(v[k] == w[k]);
                }
            }
        }
    }
}

proof fn lemma_ranks_total(a: ScoreView, b: ScoreView)
    requires
        a.0 != b.0,
    ensures
        ranks_before(a, b) || ranks_before(b, a),
{
    lemma_text_lt_total(a.0, b.0);
}

proof fn lemma_ranks_transitive(a: ScoreView, b: ScoreView, c: ScoreView)
    requires
        ranks_before(a, b),
        ranks_before(b, c),
    ensures
        ranks_before(a, c),
{
    if a.3 == b.3 && b.3 == c.3 {
        lemma_text_lt_transitive(a.0, b.0, c.0);
    }
}

proof fn lemma_ranks_irreflexive(a: ScoreView)
    ensures
        !ranks_before(a, a),
{
    lemma_text_lt_irreflexive(a.0);
}

/// In a ranking, the first score is the best and the second the best of
/// the rest.
proof fn lemma_top_two(r: Seq<ScoreView>, c: FieldEntries)
    requires
        is_ranking(r, c),
        sorted_keys(c),
        c.len() >= 2,
    ensures
        r.len() == c.len(),
        exists|i: int, j: int|
            0 <= i < c.len() && 0 <= j < c.len() && i != j && r[0].3 == score_of(c, i) && r[1].3
                == score_of(c, j) && (forall|k: int|
                0 <= k < c.len() && k != i ==> score_of(c, k) <= score_of(c, i)) && (forall|k: int|
                0 <= k < c.len() && k != i && k != j ==> score_of(c, k) <= score_of(c, j)),
{
    broadcast use vstd::seq_lib::group_to_multiset_ensures;
    let sc = scored(c);
    assert(r.len() == sc.len()) by {
        assert(r.to_multiset().len() == sc.to_multiset().len());
    }
    assert(r.contains(r[0]));
    assert(r.contains(r[1]));
    assert(r.to_multiset().count(r[0]) > 0);
    assert(r.to_multiset().count(r[1]) > 0);
    assert(sc.contains(r[0]));
    assert(sc.contains(r[1]));
    let i = choose|i: int| 0 <= i < sc.len() && sc[i] == r[0];
    let j = choose|j: int| 0 <= j < sc.len() && sc[j] == r[1];
    assert(ranks_before(r[0], r[1]));
    lemma_ranks_irreflexive(r[0]);
    assert(i != j);
    assert forall|k: int| 0 <= k < c.len() && k != i implies score_of(c, k) <= score_of(c, i) by {
        assert(sc.contains(sc[k]));
        assert(sc.to_multiset().count(sc[k]) > 0);
        assert(r.contains(sc[k]));
        let m = choose|m: int| 0 <= m < r.len() && r[m] == sc[k];
        if m == 0 {
            if k < i {
                assert(text_lt(c[k].0, c[i].0));
            } else {
                assert(text_lt(c[i].0, c[k].0));
            }
            lemma_text_lt_irreflexive(c[k].0);
        } else {
            assert(ranks_before(r[0], r[m]));
        }
    }
    assert forall|k: int| 0 <= k < c.len() && k != i && k != j implies score_of(c, k) <= score_of(c, j) by {
        assert(sc.contains(sc[k]));
        assert(sc.to_multiset().count(sc[k]) > 0);
        assert(r.contains(sc[k]));
        let m = choose|m: int| 0 <= m < r.len() && r[m] == sc[k];
        if m == 0 || m == 1 {
            let q = if m == 0 { i } else { j };
            if k < q {
                assert(text_lt(c[k].0, c[q].0));
            } else {
                assert(text_lt(c[q].0, c[k].0));
            }
            lemma_text_lt_irreflexive(c[k].0);
        } else {
            assert(ranks_before(r[1], r[m]));
        }
    }
}


/// In a ranking of candidates whose scores fit, the gap between the first two
/// scores fits too.
#[verifier::spinoff_prover]
proof fn lemma_gap_fits(r: Seq<ScoreView>, c: FieldEntries)
    requires
        is_ranking(r, c),
        sorted_keys(c),
        c.len() >= 2,
        top_gap_fits(c),
    ensures
        r.len() == c.len(),
        0 <= r[0].3 - r[1].3 <= i64::MAX,
{
    lemma_top_two(r, c);
    let (i, j) = choose|i: int, j: int|
        0 <= i < c.len() && 0 <= j < c.len() && i != j && r[0].3 == score_of(c, i) && r[1].3 == score_of(c, j)
            && (forall|k: int| 0 <= k < c.len() && k != i ==> score_of(c, k) <= score_of(c, i)) && (forall|k: int|
            0 <= k < c.len() && k != i && k != j ==> score_of(c, k) <= score_of(c, j));
    assert(score_of(c, i) - score_of(c, j) <= i64::MAX);
    assert(ranks_before(r[0], r[1]));
}


proof fn lemma_key_lt_irreflexive(a: KeyView)
    ensures
        !key_lt(a, a),
{
    lemma_text_lt_irreflexive(a.0);
    lemma_text_lt_irreflexive(a.1);
    if a.2 is Some {
        lemma_text_lt_irreflexive(a.2->Some_0);
    }
}

proof fn lemma_key_lt_transitive(a: KeyView, b: KeyView, c: KeyView)
    requires
        key_lt(a, b),
        key_lt(b, c),
    ensures
        key_lt(a, c),
{
    if text_lt(a.0, b.0) && text_lt(b.0, c.0) {
        lemma_text_lt_transitive(a.0, b.0, c.0);
    }
    if a.0 == b.0 && b.0 == c.0 && text_lt(a.1, b.1) && text_lt(b.1, c.1) {
        lemma_text_lt_transitive(a.1, b.1, c.1);
    }
    if a.0 == b.0 && b.0 == c.0 && a.1 == b.1 && b.1 == c.1 && opt_text_lt(a.2, b.2) && opt_text_lt(b.2, c.2) {
        if a.2 is Some {
            lemma_text_lt_transitive(a.2->Some_0, b.2->Some_0, c.2->Some_0);
        }
    }
}

proof fn lemma_key_lt_total(a: KeyView, b: KeyView)
    requires
        a != b,
    ensures
        key_lt(a, b) || key_lt(b, a),
{
    if a.0 != b.0 {
        lemma_text_lt_total(a.0, b.0);
    } else if a.1 != b.1 {
        lemma_text_lt_total(a.1, b.1);
    } else {
        assert(a.2 != b.2);
        if a.2 is Some && b.2 is Some {
            lemma_text_lt_total(a.2->Some_0, b.2->Some_0);
        }
    }
}

proof fn lemma_weight_sum_prefix(g: Seq<SemanticConstraint>, i: int, affirmed: bool)
    requires
        0 <= i <= g.len(),
    ensures
        0 <= weight_sum(g.subrange(0, i), affirmed) <= weight_sum(g, affirmed),
    decreases g.len() - i,
{
    if i < g.len() {
        lemma_weight_sum_prefix(g, i + 1, affirmed);
        let t = g.subrange(0, i + 1);
        assert(t.drop_last() =~= g.subrange(0, i));
        lemma_weight_sum_nonneg(g.subrange(0, i), affirmed);
    } else {
        assert(g.subrange(0, i) =~= g);
        lemma_weight_sum_nonneg(g, affirmed);
    }
}

proof fn lemma_weight_sum_nonneg(g: Seq<SemanticConstraint>, affirmed: bool)
    ensures
        0 <= weight_sum(g, affirmed),
    decreases g.len(),
{
    if g.len() > 0 {
        lemma_weight_sum_nonneg(g.drop_last(), affirmed);
    }
}

/// Members with a key exist only where some constraint has that key.
proof fn lemma_members_witness(s: Seq<SemanticConstraint>, k: KeyView)
    requires
        members(s, k).len() > 0,
    ensures
        exists|j: int| 0 <= j < s.len() && constraint_key(#[trigger] s[j]) == k,
    decreases s.len(),
{
    if constraint_key(s.last()) != k {
        lemma_members_witness(s.drop_last(), k);
        let j = choose|j: int| 0 <= j < s.len() - 1 && constraint_key(#[trigger] s.drop_last()[j]) == k;
        assert(s[j] == s.drop_last()[j]);
    }
}


proof fn lemma_members_keys(s: Seq<SemanticConstraint>, k: KeyView)
    ensures
        forall|m: int| 0 <= m < members(s, k).len() ==> constraint_key(#[trigger] members(s, k)[m]) == k,
    decreases s.len(),
{
    if s.len() > 0 {
        lemma_members_keys(s.drop_last(), k);
        let prev = members(s.drop_last(), k);
        assert forall|m: int| 0 <= m < members(s, k).len() implies constraint_key(#[trigger] members(s, k)[m]) == k by {
            if m < prev.len() {
                assert(members(s, k)[m] == prev[m]);
            }
        }
    }
}

proof fn lemma_heaviest_in(g: Seq<SemanticConstraint>, affirmed: bool)
    ensures
        heaviest(g, affirmed) is Some ==> exists|j: int| 0 <= j < g.len() && g[j] == heaviest(g, affirmed)->Some_0,
    decreases g.len(),
{
    if g.len() > 0 {
        lemma_heaviest_in(g.drop_last(), affirmed);
        let h = heaviest(g.drop_last(), affirmed);
        if !(g.last().affirmed == affirmed && (h is None || g.last().weight > h->Some_0.weight)) && h is Some {
            let j = choose|j: int| 0 <= j < g.len() - 1 && g.drop_last()[j] == h->Some_0;
            assert(g[j] == g.drop_last()[j]);
        }
    }
}

/// A group reduces to a constraint with the group's key.
proof fn lemma_reduction_key(s: Seq<SemanticConstraint>, k: KeyView)
    requires
        members(s, k).len() > 0,
    ensures
        constraint_key(reduction(k, members(s, k)).0) == k,
{
    let g = members(s, k);
    lemma_members_keys(s, k);
    lemma_heaviest_in(g, true);
    lemma_heaviest_in(g, false);
    assert(constraint_key(g[0]) == k);
}

/// Positions in stable id order over ids 1, 2, … are the identity.
proof fn lemma_identity_order<T>(tasks: Seq<ScheduledTask<T>>, perm: Seq<int>)
    requires
        is_stable_id_order(tasks, perm),
        forall|k: int| 0 <= k < tasks.len() ==> (#[trigger] tasks[k]).id == k + 1,
    ensures
        forall|k: int| 0 <= k < perm.len() ==> #[trigger] perm[k] == k,
{
    let n = perm.len();
    assert forall|a: int, b: int| 0 <= a < b < n implies #[trigger] perm[a] < #[trigger] perm[b] by {
        assert(tasks[perm[a]].id == perm[a] + 1);
        assert(tasks[perm[b]].id == perm[b] + 1);
    }
    assert forall|k: int| 0 <= k < n implies #[trigger] perm[k] == k by {
        lemma_increasing_lower(perm, k);
        lemma_increasing_upper(perm, k);
    }
}

proof fn lemma_increasing_lower(perm: Seq<int>, k: int)
    requires
        0 <= k < perm.len(),
        forall|j: int| 0 <= j < perm.len() ==> 0 <= #[trigger] perm[j] < perm.len(),
        forall|a: int, b: int| 0 <= a < b < perm.len() ==> #[trigger] perm[a] < #[trigger] perm[b],
    ensures
        perm[k] >= k,
    decreases k,
{
    if k > 0 {
        lemma_increasing_lower(perm, k - 1);
        assert(perm[k - 1] < perm[k]);
    }
}

proof fn lemma_increasing_upper(perm: Seq<int>, k: int)
    requires
        0 <= k < perm.len(),
        forall|j: int| 0 <= j < perm.len() ==> 0 <= #[trigger] perm[j] < perm.len(),
        forall|a: int, b: int| 0 <= a < b < perm.len() ==> #[trigger] perm[a] < #[trigger] perm[b],
    ensures
        perm[k] <= k,
    decreases perm.len() - k,
{
    if k < perm.len() - 1 {
        lemma_increasing_upper(perm, k + 1);
        assert(perm[k] < perm[k + 1]);
    }
}


// ── laws ─────────────────────────────────────────────────────────────────────

proof fn lemma_strictly_sorted_keys_unique(ka: Seq<KeyView>, kb: Seq<KeyView>)
    requires
        forall|a: int, b: int| 0 <= a < b < ka.len() ==> key_lt(#[trigger] ka[a], #[trigger] ka[b]),
        forall|a: int, b: int| 0 <= a < b < kb.len() ==> key_lt(#[trigger] kb[a], #[trigger] kb[b]),
        forall|x: KeyView| ka.contains(x) <==> kb.contains(x),
    ensures
        ka == kb,
    decreases ka.len(),
{
    if ka.len() == 0 {
        if kb.len() > 0 {
            assert(kb.contains(kb[0]));
        }
        assert(ka =~= kb);
    } else {
        assert(ka.contains(ka[0]));
        assert(kb.len() > 0);
        assert(kb.contains(kb[0]));
        let m = choose|m: int| 0 <= m < kb.len() && kb[m] == ka[0];
        let p = choose|p: int| 0 <= p < ka.len() && ka[p] == kb[0];
        if m > 0 {
            assert(key_lt(kb[0], kb[m]));
            if p == 0 {
                lemma_key_lt_irreflexive(kb[0]);
            } else {
                assert(key_lt(ka[0], ka[p]));
                lemma_key_lt_transitive(ka[0], kb[0], ka[0]);
                lemma_key_lt_irreflexive(ka[0]);
            }
        }
        assert(ka[0] == kb[0]);
        let ta = ka.drop_first();
        let tb = kb.drop_first();
        assert forall|x: KeyView| ta.contains(x) <==> tb.contains(x) by {
            if ta.contains(x) {
                let i = choose|i: int| 0 <= i < ta.len() && ta[i] == x;
                assert(ka[i + 1] == x);
                assert(key_lt(ka[0], ka[i + 1]));
                lemma_key_lt_irreflexive(x);
                assert(ka.contains(x));
                let j = choose|j: int| 0 <= j < kb.len() && kb[j] == x;
                if j == 0 {
                    assert(false);
                }
                assert(tb[j - 1] == x);
            }
            if tb.contains(x) {
                let i = choose|i: int| 0 <= i < tb.len() && tb[i] == x;
                assert(kb[i + 1] == x);
                assert(key_lt(kb[0], kb[i + 1]));
                lemma_key_lt_irreflexive(x);
                assert(kb.contains(x));
                let j = choose|j: int| 0 <= j < ka.len() && ka[j] == x;
                if j == 0 {
                    assert(false);
                }
                assert(ta[j - 1] == x);
            }
        }
        assert forall|a: int, b: int| 0 <= a < b < ta.len() implies key_lt(#[trigger] ta[a], #[trigger] ta[b]) by {
            assert(ta[a] == ka[a + 1] && ta[b] == ka[b + 1]);
        }
        assert forall|a: int, b: int| 0 <= a < b < tb.len() implies key_lt(#[trigger] tb[a], #[trigger] tb[b]) by {
            assert(tb[a] == kb[a + 1] && tb[b] == kb[b + 1]);
        }
        lemma_strictly_sorted_keys_unique(ta, tb);
        assert(ka =~= seq![ka[0]] + ta);
        assert(kb =~= seq![kb[0]] + tb);
    }
}

/// Grouped contradiction resolution has one outcome per constraint set:
/// two results that both resolve `s` are equal, so the result of
/// `resolve_contradictions_parallel_deterministic` depends on the
/// constraints alone, never on the worker count.
pub proof fn lemma_grouped_resolution_unique(r1: Seq<SemanticConstraint>, r2: Seq<SemanticConstraint>, s: Seq<SemanticConstraint>)
    requires
        is_grouped_resolution(r1, s),
        is_grouped_resolution(r2, s),
    ensures
        r1 == r2,
{
    let k1 = keys_of(r1);
    let k2 = keys_of(r2);
    assert forall|x: KeyView| k1.contains(x) <==> k2.contains(x) by {
        if k1.contains(x) {
            let m = choose|m: int| 0 <= m < k1.len() && k1[m] == x;
            assert(members(s, constraint_key(r1[m])).len() > 0);
            lemma_members_witness(s, x);
            let j = choose|j: int| 0 <= j < s.len() && constraint_key(#[trigger] s[j]) == x;
            let m2 = choose|m2: int| 0 <= m2 < r2.len() && constraint_key(#[trigger] r2[m2]) == constraint_key(s[j]);
            assert(k2[m2] == x);
        }
        if k2.contains(x) {
            let m = choose|m: int| 0 <= m < k2.len() && k2[m] == x;
            assert(members(s, constraint_key(r2[m])).len() > 0);
            lemma_members_witness(s, x);
            let j = choose|j: int| 0 <= j < s.len() && constraint_key(#[trigger] s[j]) == x;
            let m1 = choose|m1: int| 0 <= m1 < r1.len() && constraint_key(#[trigger] r1[m1]) == constraint_key(s[j]);
            assert(k1[m1] == x);
        }
    }
    assert forall|a: int, b: int| 0 <= a < b < k1.len() implies key_lt(#[trigger] k1[a], #[trigger] k1[b]) by {
        assert(key_lt(constraint_key(r1[a]), constraint_key(r1[b])));
    }
    assert forall|a: int, b: int| 0 <= a < b < k2.len() implies key_lt(#[trigger] k2[a], #[trigger] k2[b]) by {
        assert(key_lt(constraint_key(r2[a]), constraint_key(r2[b])));
    }
    lemma_strictly_sorted_keys_unique(k1, k2);
    assert forall|m: int| 0 <= m < r1.len() implies r1[m] == r2[m] by {
        assert(k1[m] == k2[m]);
        assert(r1[m] == reduction(constraint_key(r1[m]), members(s, constraint_key(r1[m]))).0);
        assert(r2[m] == reduction(constraint_key(r2[m]), members(s, constraint_key(r2[m]))).0);
    }
    assert(r1 =~= r2);
}

proof fn lemma_members_complete(s: Seq<SemanticConstraint>, k: KeyView)
    ensures
        forall|j: int| 0 <= j < s.len() && constraint_key(#[trigger] s[j]) == k ==> members(s, k).contains(s[j]),
        forall|m: int| 0 <= m < members(s, k).len() ==> s.contains(#[trigger] members(s, k)[m]),
    decreases s.len(),
{
    if s.len() > 0 {
        let d = s.drop_last();
        lemma_members_complete(d, k);
        let g = members(s, k);
        let pg = members(d, k);
        assert forall|j: int| 0 <= j < s.len() && constraint_key(#[trigger] s[j]) == k implies g.contains(s[j]) by {
            if j == s.len() - 1 {
                assert(g[g.len() - 1] == s[j]);
            } else {
                assert(d[j] == s[j]);
                let m = choose|m: int| 0 <= m < pg.len() && pg[m] == d[j];
                assert(g[m] == pg[m]);
            }
        }
        assert forall|m: int| 0 <= m < g.len() implies s.contains(#[trigger] g[m]) by {
            if constraint_key(s.last()) == k && m == g.len() - 1 {
                assert(s[s.len() - 1] == g[m]);
            } else {
                assert(g[m] == pg[m]);
                let j = choose|j: int| 0 <= j < d.len() && d[j] == pg[m];
                assert(s[j] == d[j]);
            }
        }
    }
}

proof fn lemma_heaviest_props(g: Seq<SemanticConstraint>, a: bool)
    ensures
        heaviest(g, a) is Some ==> g.contains(heaviest(g, a)->Some_0) && heaviest(g, a)->Some_0.affirmed == a,
        heaviest(g, a) is Some ==> forall|j: int|
            0 <= j < g.len() && (#[trigger] g[j]).affirmed == a ==> g[j].weight <= heaviest(g, a)->Some_0.weight,
        heaviest(g, a) is None ==> forall|j: int| 0 <= j < g.len() ==> (#[trigger] g[j]).affirmed != a,
        heaviest(g, a) is None ==> weight_sum(g, a) == 0,
        forall|j: int| 0 <= j < g.len() && (#[trigger] g[j]).affirmed == a ==> g[j].weight <= weight_sum(g, a),
    decreases g.len(),
{
    if g.len() > 0 {
        let d = g.drop_last();
        lemma_heaviest_props(d, a);
        lemma_weight_sum_nonneg(d, a);
        let h = heaviest(d, a);
        assert forall|j: int| 0 <= j < g.len() - 1 implies #[trigger] g[j] == d[j] by {}
        if heaviest(g, a) is Some {
            if g.last().affirmed == a && (h is None || g.last().weight > h->Some_0.weight) {
                assert(g[g.len() - 1] == g.last());
            } else {
                let w = choose|w: int| 0 <= w < d.len() && d[w] == h->Some_0;
                assert(g[w] == d[w]);
            }
        }
    }
}

/// Resolution keeps the weightiest: no constraint with a kept constraint's
/// key and polarity weighs more than it, and where all the constraints of a
/// key agree in polarity, the kept one is one of them.
pub proof fn lemma_resolution_keeps_heaviest(r: Seq<SemanticConstraint>, s: Seq<SemanticConstraint>)
    requires
        is_grouped_resolution(r, s),
    ensures
        forall|m: int, j: int|
            0 <= m < r.len() && 0 <= j < s.len() && constraint_key(#[trigger] s[j]) == constraint_key(
                #[trigger] r[m],
            ) && s[j].affirmed == r[m].affirmed ==> s[j].weight <= r[m].weight,
        forall|m: int|
            0 <= m < r.len() && (forall|j: int|
                0 <= j < s.len() && constraint_key(#[trigger] s[j]) == constraint_key(r[m]) ==> s[j].affirmed
                    == r[m].affirmed) ==> s.contains(#[trigger] r[m]),
{
    assert forall|m: int, j: int|
        0 <= m < r.len() && 0 <= j < s.len() && constraint_key(#[trigger] s[j]) == constraint_key(#[trigger] r[m])
            && s[j].affirmed == r[m].affirmed implies s[j].weight <= r[m].weight by {
        let k = constraint_key(r[m]);
        let g = members(s, k);
        lemma_members_complete(s, k);
        lemma_heaviest_props(g, true);
        lemma_heaviest_props(g, false);
        assert(g.len() > 0);
        let w = choose|w: int| 0 <= w < g.len() && g[w] == s[j];
        assert(g[w].affirmed == s[j].affirmed);
        let aw = weight_sum(g, true);
        let nw = weight_sum(g, false);
        let chosen = aw >= nw;
        assert(r[m] == reduction(k, g).0);
        if heaviest(g, true) is Some && heaviest(g, false) is Some {
            let pick = heaviest(g, chosen)->Some_0;
            assert(r[m].affirmed == pick.affirmed);
            assert(g[w].weight <= weight_sum(g, chosen));
        } else if heaviest(g, chosen) is Some {
            assert(r[m] == heaviest(g, chosen)->Some_0);
        } else {
            assert(r[m] == g[0]);
            lemma_weight_sum_nonneg(g, true);
            lemma_weight_sum_nonneg(g, false);
            assert(g[w].weight <= weight_sum(g, g[w].affirmed));
        }
    }
    assert forall|m: int|
        0 <= m < r.len() && (forall|j: int|
            0 <= j < s.len() && constraint_key(#[trigger] s[j]) == constraint_key(r[m]) ==> s[j].affirmed
                == r[m].affirmed) implies s.contains(#[trigger] r[m]) by {
        let k = constraint_key(r[m]);
        let g = members(s, k);
        lemma_members_complete(s, k);
        lemma_members_keys(s, k);
        lemma_heaviest_props(g, true);
        lemma_heaviest_props(g, false);
        assert(g.len() > 0);
        assert(s.contains(g[0]));
        if heaviest(g, true) is Some && heaviest(g, false) is Some {
            let ha = heaviest(g, true)->Some_0;
            let hn = heaviest(g, false)->Some_0;
            let ja = choose|j: int| 0 <= j < s.len() && s[j] == ha;
            let jn = choose|j: int| 0 <= j < s.len() && s[j] == hn;
            let wa = choose|w: int| 0 <= w < g.len() && g[w] == ha;
            let wn = choose|w: int| 0 <= w < g.len() && g[w] == hn;
            assert(constraint_key(g[wa]) == k);
            assert(constraint_key(g[wn]) == k);
            assert(s[ja].affirmed == r[m].affirmed);
            assert(s[jn].affirmed == r[m].affirmed);
        }
    }
}

proof fn lemma_first_same_key(s: Seq<SemanticConstraint>, i: int, from: int)
    requires
        0 <= from,
        0 <= i < s.len(),
    ensures
        match first_same_key(s, i, from) {
            Some(j) => from <= j < i && constraint_key(s[j]) == constraint_key(s[i]) && forall|q: int|
                from <= q < j ==> constraint_key(#[trigger] s[q]) != constraint_key(s[i]),
            None => forall|q: int| from <= q < i ==> constraint_key(#[trigger] s[q]) != constraint_key(s[i]),
        },
    decreases i - from,
{
    if from < i {
        lemma_first_same_key(s, i, from + 1);
    }
}

proof fn lemma_conflicts_upto(s: Seq<SemanticConstraint>, n: int)
    requires
        0 <= n <= s.len(),
    ensures
        forall|k: int|
            0 <= k < conflicts_upto(s, n).len() ==> {
                let c = #[trigger] conflicts_upto(s, n)[k];
                &&& 0 <= c.0 < c.1 < n
                &&& constraint_key(s[c.0]) == constraint_key(s[c.1])
                &&& s[c.0].affirmed != s[c.1].affirmed
                &&& forall|q: int| 0 <= q < c.0 ==> constraint_key(#[trigger] s[q]) != constraint_key(s[c.1])
                &&& c.2 == conflict_message(s[c.1])
            },
        forall|j: int, i: int|
            0 <= j < i < n && constraint_key(#[trigger] s[j]) == constraint_key(#[trigger] s[i]) && s[j].affirmed
                != s[i].affirmed && (forall|q: int| 0 <= q < j ==> constraint_key(#[trigger] s[q]) != constraint_key(s[i]))
                ==> conflicts_upto(s, n).contains((j, i, conflict_message(s[i]))),
    decreases n,
{
    if n > 0 {
        lemma_conflicts_upto(s, n - 1);
        lemma_first_same_key(s, n - 1, 0);
        let prev = conflicts_upto(s, n - 1);
        let cur = conflicts_upto(s, n);
        assert forall|k: int| 0 <= k < cur.len() implies {
            let c = #[trigger] cur[k];
            &&& 0 <= c.0 < c.1 < n
            &&& constraint_key(s[c.0]) == constraint_key(s[c.1])
            &&& s[c.0].affirmed != s[c.1].affirmed
            &&& forall|q: int| 0 <= q < c.0 ==> constraint_key(#[trigger] s[q]) != constraint_key(s[c.1])
            &&& c.2 == conflict_message(s[c.1])
        } by {
            if k < prev.len() {
                assert(cur[k] == prev[k]);
            }
        }
        assert forall|j: int, i: int|
            0 <= j < i < n && constraint_key(#[trigger] s[j]) == constraint_key(#[trigger] s[i]) && s[j].affirmed
                != s[i].affirmed && (forall|q: int| 0 <= q < j ==> constraint_key(#[trigger] s[q]) != constraint_key(s[i]))
            implies cur.contains((j, i, conflict_message(s[i]))) by {
            if i < n - 1 {
                let k = choose|k: int| 0 <= k < prev.len() && prev[k] == (j, i, conflict_message(s[i]));
                assert(cur[k] == prev[k]);
            } else {
                match first_same_key(s, n - 1, 0) {
                    Some(f) => {
                        if f < j {
                            assert(constraint_key(s[f]) != constraint_key(s[i]));
                        } else if j < f {
                            assert(constraint_key(s[j]) != constraint_key(s[n - 1]));
                        }
                        assert(cur[cur.len() - 1] == (j, i, conflict_message(s[i])));
                    },
                    None => {
                        assert(constraint_key(s[j]) != constraint_key(s[n - 1]));
                    },
                }
            }
        }
    }
}

/// What conflict detection reports: a pair (j, i) with j < i is reported,
/// with the message naming constraint i's subject and predicate, exactly
/// when the two share a key (subject, predicate, object), have opposite
/// polarities, and j is the first constraint with that key.
pub proof fn lemma_conflicts_are_polarity_mismatches(s: Seq<SemanticConstraint>)
    ensures
        forall|k: int|
            0 <= k < conflicts_of(s).len() ==> {
                let c = #[trigger] conflicts_of(s)[k];
                &&& 0 <= c.0 < c.1 < s.len()
                &&& constraint_key(s[c.0]) == constraint_key(s[c.1])
                &&& s[c.0].affirmed != s[c.1].affirmed
                &&& forall|q: int| 0 <= q < c.0 ==> constraint_key(#[trigger] s[q]) != constraint_key(s[c.1])
                &&& c.2 == "Conflict on "@ + s[c.1].subject@ + ":"@ + s[c.1].predicate@ + " polarity mismatch"@
            },
        forall|j: int, i: int|
            0 <= j < i < s.len() && constraint_key(#[trigger] s[j]) == constraint_key(#[trigger] s[i])
                && s[j].affirmed != s[i].affirmed && (forall|q: int|
                0 <= q < j ==> constraint_key(#[trigger] s[q]) != constraint_key(s[i])) ==> conflicts_of(s).contains(
                (j, i, "Conflict on "@ + s[i].subject@ + ":"@ + s[i].predicate@ + " polarity mismatch"@),
            ),
{
    lemma_conflicts_upto(s, s.len() as int);
}

/// The selected sense has the highest score of all candidates, and of the
/// candidates with that score it has the first concept in text order.
pub proof fn lemma_selected_sense_is_best(d: DisambiguationDecision, c: FieldEntries, subject: Seq<char>, margin: i64)
    requires
        is_decision(d, c, subject, margin),
        sorted_keys(c),
    ensures
        forall|k: int| 0 <= k < c.len() ==> score_of(c, k) <= d.candidates@[0].score,
        forall|k: int|
            0 <= k < c.len() && score_of(c, k) == d.candidates@[0].score ==> c[k].0 == d.selected_concept@
                || text_lt(d.selected_concept@, c[k].0),
{
    broadcast use vstd::seq_lib::group_to_multiset_ensures;
    let r = score_views(d.candidates@);
    let sc = scored(c);
    assert(r[0] == (d.candidates@[0].concept@, d.candidates@[0].support as int, d.candidates@[0].interference as int,
        d.candidates@[0].score as int));
    assert forall|k: int| 0 <= k < c.len() implies score_of(c, k) <= d.candidates@[0].score && (score_of(c, k)
        == d.candidates@[0].score ==> c[k].0 == d.selected_concept@ || text_lt(d.selected_concept@, c[k].0)) by {
        assert(sc.contains(sc[k]));
        assert(sc.to_multiset().count(sc[k]) > 0);
        assert(r.contains(sc[k]));
        let m = choose|m: int| 0 <= m < r.len() && r[m] == sc[k];
        if m > 0 {
            assert(ranks_before(r[0], r[m]));
        }
    }
}

// ── exec helpers ─────────────────────────────────────────────────────────────

fn same_object(a: &Option<String>, b: &Option<String>) -> (r: bool)
    ensures
        r == (opt_view(*a) == opt_view(*b)),
{
    match (a, b) {
        (None, None) => true,
        (Some(x), Some(y)) => same_text(x, y),
        _ => false,
    }
}

fn object_less(a: &Option<String>, b: &Option<String>) -> (r: bool)
    ensures
        r == opt_text_lt(opt_view(*a), opt_view(*b)),
{
    match (a, b) {
        (None, Some(_)) => true,
        (Some(x), Some(y)) => less_than(x.as_str(), y.as_str()),
        _ => false,
    }
}

pub(crate) fn same_key(a: &SemanticConstraint, b: &SemanticConstraint) -> (r: bool)
    ensures
        r == (constraint_key(*a) == constraint_key(*b)),
{
    same_text(&a.subject, &b.subject) && same_text(&a.predicate, &b.predicate) && same_object(
        &a.object,
        &b.object,
    )
}

/// A copy of `constraints` in constraint order, equal ones kept in their
/// order.
pub(crate) fn sort_constraints(constraints: &[SemanticConstraint]) -> (out: Vec<SemanticConstraint>)
    ensures
        out@ == stable_sorted(constraints@),
        out@.len() == constraints@.len(),
{
    let ghost s = constraints@;
    let mut out: Vec<SemanticConstraint> = Vec::new();
    let mut i: usize = 0;
    assert(s.subrange(0, 0) =~= Seq::<SemanticConstraint>::empty());
    while i < constraints.len()
        invariant
            s == constraints@,
            i <= s.len(),
            out@.len() == i,
            out@ == stable_sorted(s.subrange(0, i as int)),
        decreases s.len() - i,
    {
        let x = constraints[i].duplicate();
        let mut p: usize = 0;
        while p < out.len() && !constraint_less(&x, &out[p])
            invariant
                p <= out@.len(),
                forall|k: int| 0 <= k < p ==> !constraint_lt(x, #[trigger] out@[k]),
            decreases out@.len() - p,
        {
            p = p + 1;
        }
        proof {
            lemma_insert_sorted_at(out@, x, p as int);
            let t = s.subrange(0, i + 1);
            assert(t.drop_last() =~= s.subrange(0, i as int));
        }
        out.insert(p, x);
        i = i + 1;
        assert(out@ =~= stable_sorted(s.subrange(0, i as int)));
    }
    assert(s.subrange(0, s.len() as int) =~= s);
    out
}

fn constraint_less(a: &SemanticConstraint, b: &SemanticConstraint) -> (r: bool)
    ensures
        r == constraint_lt(*a, *b),
{
    if less_than(a.subject.as_str(), b.subject.as_str()) {
        return true;
    }
    if !same_text(&a.subject, &b.subject) {
        return false;
    }
    if less_than(a.predicate.as_str(), b.predicate.as_str()) {
        return true;
    }
    if !same_text(&a.predicate, &b.predicate) {
        return false;
    }
    if object_less(&a.object, &b.object) {
        return true;
    }
    if !same_object(&a.object, &b.object) {
        return false;
    }
    if a.affirmed != b.affirmed {
        return !a.affirmed;
    }
    a.weight < b.weight
}

fn copy_texts(v: &Vec<String>) -> (r: Vec<String>)
    ensures
        r@ == v@,
{
    let mut out: Vec<String> = Vec::new();
    let mut i: usize = 0;
    while i < v.len()
        invariant
            i <= v@.len(),
            out@ == v@.subrange(0, i as int),
        decreases v@.len() - i,
    {
        out.push(v[i].clone());
        i = i + 1;
        assert(out@ =~= v@.subrange(0, i as int));
    }
    assert(v@.subrange(0, v@.len() as int) =~= v@);
    out
}


/// The field's entries whose concept starts with `prefix`, in concept order.
fn sense_candidates(field: &SemanticField, prefix: &str) -> (r: Vec<(String, FieldPoint)>)
    ensures
        pairs_view(r@) == with_prefix(field@, prefix@),
        sorted_keys(pairs_view(r@)),
{
    let all = field.ordered_concepts();
    let ghost s = field@;
    let mut out: Vec<(String, FieldPoint)> = Vec::new();
    let mut i: usize = 0;
    assert(s.subrange(0, 0) =~= Seq::<(Seq<char>, FieldPoint)>::empty());
    while i < all.len()
        invariant
            pairs_view(all@) == s,
            i <= all@.len(),
            pairs_view(out@) == with_prefix(s.subrange(0, i as int), prefix@),
        decreases all@.len() - i,
    {
        let ghost t = s.subrange(0, i + 1);
        assert(t.drop_last() =~= s.subrange(0, i as int));
        assert(t.last() == s[i as int]);
        assert(s[i as int] == (all@[i as int].0@, all@[i as int].1));
        if strip_prefix_text(all[i].0.as_str(), prefix).is_some() {
            let ghost before = pairs_view(out@);
            out.push((all[i].0.clone(), all[i].1));
            assert(pairs_view(out@) =~= before.push(s[i as int]));
        }
        i = i + 1;
    }
    assert(s.subrange(0, s.len() as int) =~= s);
    proof {
        lemma_with_prefix_sorted(s, prefix@);
    }
    out
}

/// The interference of candidate `i`.
fn interference_of(c: &Vec<(String, FieldPoint)>, i: usize) -> (r: i64)
    requires
        i < c@.len(),
        senses_fit(pairs_view(c@)),
    ensures
        r == interference_upto(pairs_view(c@), i as int, c@.len() as int),
{
    let ghost v = pairs_view(c@);
    let mut acc: i64 = 0;
    let mut j: usize = 0;
    while j < c.len()
        invariant
            v == pairs_view(c@),
            i < c@.len(),
            j <= c@.len(),
            senses_fit(v),
            acc == interference_upto(v, i as int, j as int),
        decreases c@.len() - j,
    {
        assert(v[i as int] == (c@[i as int].0@, c@[i as int].1));
        assert(v[j as int] == (c@[j as int].0@, c@[j as int].1));
        assert(fits_i64(interference_upto(v, i as int, j + 1)));
        if !same_text(&c[i].0, &c[j].0) {
            let a = c[i].1;
            let b = c[j].1;
            assert(pair_fits(v[i as int].1, v[j as int].1));
            let d = a.position.manhattan_distance(&b.position) + 1;
            let diff = (a.intensity - b.intensity) * 100;
            let term = diff / d;
            assert(term == pair_term(v, i as int, j as int));
            acc = acc + term;
        }
        j = j + 1;
    }
    acc
}

/// The score of each candidate, in candidate order.
#[verifier::spinoff_prover]
#[verifier::rlimit(30)]
fn score_senses(c: &Vec<(String, FieldPoint)>) -> (r: Vec<SenseInterferenceScore>)
    requires
        senses_fit(pairs_view(c@)),
    ensures
        score_views(r@) == scored(pairs_view(c@)),
{
    let ghost v = pairs_view(c@);
    let mut out: Vec<SenseInterferenceScore> = Vec::new();
    let mut i: usize = 0;
    while i < c.len()
        invariant
            v == pairs_view(c@),
            senses_fit(v),
            i <= c@.len(),
            score_views(out@) == scored(v).subrange(0, i as int),
        decreases c@.len() - i,
    {
        assert(v[i as int] == (c@[i as int].0@, c@[i as int].1));
        assert(fits_i64(support_of(v, i as int)));
        let support = c[i].1.intensity * 1000;
        let interference = interference_of(c, i);
        let score = support + interference;
        let ghost before = score_views(out@);
        let concept = c[i].0.clone();
        let item = SenseInterferenceScore { concept, support, interference, score };
        assert((item.concept@, item.support as int, item.interference as int, item.score as int)
            == scored(v)[i as int]);
        out.push(item);
        assert(score_views(out@) =~= before.push(scored(v)[i as int]));
        i = i + 1;
        assert(score_views(out@) =~= scored(v).subrange(0, i as int));
    }
    assert(scored(v).subrange(0, c@.len() as int) =~= scored(v));
    out
}

/// The scores in rank order.
fn rank_scores(v: &Vec<SenseInterferenceScore>) -> (r: Vec<SenseInterferenceScore>)
    requires
        forall|a: int, b: int|
            0 <= a < b < v@.len() ==> text_lt(#[trigger] score_views(v@)[a].0, #[trigger] score_views(v@)[b].0),
    ensures
        score_views(r@).to_multiset() == score_views(v@).to_multiset(),
        forall|a: int, b: int|
            0 <= a < b < r@.len() ==> ranks_before(#[trigger] score_views(r@)[a], #[trigger] score_views(r@)[b]),
{
    broadcast use vstd::seq_lib::group_to_multiset_ensures;
    let ghost sv = score_views(v@);
    let mut out: Vec<SenseInterferenceScore> = Vec::new();
    let ghost mut perm: Seq<int> = Seq::empty();
    let mut i: usize = 0;
    while i < v.len()
        invariant
            sv == score_views(v@),
            forall|a: int, b: int| 0 <= a < b < sv.len() ==> text_lt(#[trigger] sv[a].0, #[trigger] sv[b].0),
            i <= v@.len(),
            score_views(out@).to_multiset() == sv.subrange(0, i as int).to_multiset(),
            perm.len() == out@.len(),
            forall|k: int|
                0 <= k < out@.len() ==> 0 <= #[trigger] perm[k] < i && score_views(out@)[k] == sv[perm[k]],
            forall|a: int, b: int|
                0 <= a < b < out@.len() ==> ranks_before(#[trigger] score_views(out@)[a], #[trigger] score_views(out@)[b]),
        decreases v@.len() - i,
    {
        let x = SenseInterferenceScore {
            concept: v[i].concept.clone(),
            support: v[i].support,
            interference: v[i].interference,
            score: v[i].score,
        };
        let ghost xv = (x.concept@, x.support as int, x.interference as int, x.score as int);
        assert(xv == sv[i as int]);
        let mut p: usize = 0;
        while p < out.len() && !(out[p].score < x.score || (out[p].score == x.score && less_than(
            x.concept.as_str(),
            out[p].concept.as_str(),
        )))
            invariant
                p <= out@.len(),
                xv == (x.concept@, x.support as int, x.interference as int, x.score as int),
                forall|k: int| 0 <= k < p ==> !ranks_before(xv, #[trigger] score_views(out@)[k]),
            decreases out@.len() - p,
        {
            assert(score_views(out@)[p as int] == (out@[p as int].concept@, out@[p as int].support as int,
                out@[p as int].interference as int, out@[p as int].score as int));
            p = p + 1;
        }
        let ghost before = score_views(out@);
        let ghost old_perm = perm;
        proof {
            if p < out@.len() {
                assert(before[p as int] == (out@[p as int].concept@, out@[p as int].support as int,
                    out@[p as int].interference as int, out@[p as int].score as int));
                assert(ranks_before(xv, before[p as int]));
            }
            assert forall|k: int| 0 <= k < p implies ranks_before(#[trigger] before[k], xv) by {
                assert(before[k] == sv[old_perm[k]]);
                assert(text_lt(sv[old_perm[k]].0, sv[i as int].0));
                lemma_text_lt_irreflexive(xv.0);
                lemma_ranks_total(before[k], xv);
            }
        }
        out.insert(p, x);
        proof {
            perm = old_perm.insert(p as int, i as int);
            let now = score_views(out@);
            assert(now =~= before.insert(p as int, xv));
            let t = sv.subrange(0, i + 1);
            assert(t =~= sv.subrange(0, i as int).push(sv[i as int]));
            vstd::seq_lib::to_multiset_insert(before, p as int, xv);
            vstd::seq_lib::to_multiset_build(sv.subrange(0, i as int), sv[i as int]);
            assert forall|k: int| 0 <= k < out@.len() implies 0 <= #[trigger] perm[k] < i + 1 && now[k] == sv[perm[k]] by {
                if k < p {
                    assert(now[k] == before[k]);
                } else if k > p {
                    assert(now[k] == before[k - 1]);
                }
            }
            assert forall|a: int, b: int| 0 <= a < b < now.len() implies ranks_before(#[trigger] now[a], #[trigger] now[b]) by {
                if a < p && b == p {
                } else if a < p && b > p {
                    assert(now[b] == before[b - 1]);
                    assert(now[a] == before[a]);
                } else if a == p {
                    assert(now[b] == before[b - 1]);
                    if b - 1 > p {
                        lemma_ranks_transitive(xv, before[p as int], before[b - 1]);
                    }
                } else if a < p {
                    assert(now[a] == before[a]);
                    assert(now[b] == before[b]);
                } else {
                    assert(now[a] == before[a - 1]);
                    assert(now[b] == before[b - 1]);
                }
            }
        }
        i = i + 1;
    }
    assert(sv.subrange(0, v@.len() as int) =~= sv);
    out
}


pub open spec fn key_view(k: (String, String, Option<String>)) -> KeyView {
    (k.0@, k.1@, opt_view(k.2))
}

fn key_less(a: &(String, String, Option<String>), b: &(String, String, Option<String>)) -> (r: bool)
    ensures
        r == key_lt(key_view(*a), key_view(*b)),
{
    if less_than(a.0.as_str(), b.0.as_str()) {
        return true;
    }
    if !same_text(&a.0, &b.0) {
        return false;
    }
    if less_than(a.1.as_str(), b.1.as_str()) {
        return true;
    }
    if !same_text(&a.1, &b.1) {
        return false;
    }
    object_less(&a.2, &b.2)
}

fn key_equal(a: &(String, String, Option<String>), b: &(String, String, Option<String>)) -> (r: bool)
    ensures
        r == (key_view(*a) == key_view(*b)),
{
    same_text(&a.0, &b.0) && same_text(&a.1, &b.1) && same_object(&a.2, &b.2)
}

/// One group reduced to a constraint, with its conflict report if any.
fn reduce_group(key: &(String, String, Option<String>), group: &Vec<SemanticConstraint>) -> (out: (
    SemanticConstraint,
    Option<String>,
))
    requires
        group@.len() > 0,
        weight_sum(group@, true) <= u16::MAX,
        weight_sum(group@, false) <= u16::MAX,
    ensures
        out.0 == reduction(key_view(*key), group@).0,
        opt_view(out.1) == reduction(key_view(*key), group@).1,
{
    let ghost g = group@;
    let mut aw: u16 = 0;
    let mut nw: u16 = 0;
    let mut ha: Option<usize> = None;
    let mut hn: Option<usize> = None;
    let mut i: usize = 0;
    assert(g.subrange(0, 0) =~= Seq::<SemanticConstraint>::empty());
    while i < group.len()
        invariant
            g == group@,
            i <= g.len(),
            weight_sum(g, true) <= u16::MAX,
            weight_sum(g, false) <= u16::MAX,
            aw == weight_sum(g.subrange(0, i as int), true),
            nw == weight_sum(g.subrange(0, i as int), false),
            match ha {
                Some(ix) => ix < i && heaviest(g.subrange(0, i as int), true) == Some(g[ix as int]),
                None => heaviest(g.subrange(0, i as int), true) is None,
            },
            match hn {
                Some(ix) => ix < i && heaviest(g.subrange(0, i as int), false) == Some(g[ix as int]),
                None => heaviest(g.subrange(0, i as int), false) is None,
            },
        decreases g.len() - i,
    {
        let ghost t = g.subrange(0, i + 1);
        proof {
            assert(t.drop_last() =~= g.subrange(0, i as int));
            assert(t.last() == g[i as int]);
            lemma_weight_sum_prefix(g, i + 1, true);
            lemma_weight_sum_prefix(g, i + 1, false);
        }
        let c = &group[i];
        if c.affirmed {
            aw = aw + c.weight as u16;
            let better = match ha {
                Some(ix) => c.weight > group[ix].weight,
                None => true,
            };
            if better {
                ha = Some(i);
            }
        } else {
            nw = nw + c.weight as u16;
            let better = match hn {
                Some(ix) => c.weight > group[ix].weight,
                None => true,
            };
            if better {
                hn = Some(i);
            }
        }
        i = i + 1;
    }
    assert(g.subrange(0, g.len() as int) =~= g);
    let conflict = ha.is_some() && hn.is_some();
    let choose_affirmed = aw >= nw;
    let pick = if choose_affirmed {
        ha
    } else {
        hn
    };
    let mut chosen = match pick {
        Some(ix) => group[ix].duplicate(),
        None => group[0].duplicate(),
    };
    if !conflict {
        return (chosen, None);
    }
    let total = if choose_affirmed {
        aw
    } else {
        nw
    };
    chosen.weight = if total > 255 {
        255
    } else {
        total as u8
    };
    let mut msg = text("resolved conflict on ");
    push_str(&mut msg, key.0.as_str());
    push_str(&mut msg, ":");
    push_str(&mut msg, key.1.as_str());
    push_str(&mut msg, " -> polarity=");
    if choose_affirmed {
        push_str(&mut msg, "affirmed");
    } else {
        push_str(&mut msg, "negated");
    }
    push_str(&mut msg, " (affirmed_weight=");
    push_u64(&mut msg, aw as u64);
    push_str(&mut msg, ", negated_weight=");
    push_u64(&mut msg, nw as u64);
    push_str(&mut msg, ")");
    (chosen, Some(msg))
}

/// A group view: its key and its members.
pub open spec fn group_views(v: Seq<((String, String, Option<String>), Vec<SemanticConstraint>)>) -> Seq<(KeyView, Seq<SemanticConstraint>)> {
    v.map_values(|g: ((String, String, Option<String>), Vec<SemanticConstraint>)| (key_view(g.0), g.1@))
}

/// `gs` groups the constraints `t`: one group per key, in key order, each
/// with its members in order.
pub open spec fn groups_of(gs: Seq<(KeyView, Seq<SemanticConstraint>)>, t: Seq<SemanticConstraint>) -> bool {
    &&& forall|g: int| 0 <= g < gs.len() ==> (#[trigger] gs[g]).1 == members(t, gs[g].0) && gs[g].1.len() > 0
    &&& forall|a: int, b: int| 0 <= a < b < gs.len() ==> key_lt((#[trigger] gs[a]).0, (#[trigger] gs[b]).0)
    &&& forall|j: int| 0 <= j < t.len() ==> exists|g: int| 0 <= g < gs.len() && (#[trigger] gs[g]).0 == constraint_key(#[trigger] t[j])
}

/// The constraints grouped by key, groups in key order.
fn group_by_key(constraints: &[SemanticConstraint]) -> (r: Vec<((String, String, Option<String>), Vec<SemanticConstraint>)>)
    ensures
        groups_of(group_views(r@), constraints@),
{
    let ghost s = constraints@;
    let mut groups: Vec<((String, String, Option<String>), Vec<SemanticConstraint>)> = Vec::new();
    let mut i: usize = 0;
    assert(s.subrange(0, 0) =~= Seq::<SemanticConstraint>::empty());
    while i < constraints.len()
        invariant
            s == constraints@,
            i <= s.len(),
            groups_of(group_views(groups@), s.subrange(0, i as int)),
        decreases s.len() - i,
    {
        let x = constraints[i].duplicate();
        let kx = x.key();
        let ghost kv = key_view(kx);
        let ghost before = group_views(groups@);
        let ghost t = s.subrange(0, i as int);
        let ghost t2 = s.subrange(0, i + 1);
        assert(t2 =~= t.push(s[i as int]));
        assert(t2.drop_last() =~= t);
        assert(kv == constraint_key(s[i as int]));
        let mut p: usize = 0;
        while p < groups.len() && key_less(&groups[p].0, &kx)
            invariant
                p <= groups@.len(),
                before == group_views(groups@),
                kv == key_view(kx),
                forall|k: int| 0 <= k < p ==> key_lt((#[trigger] before[k]).0, kv),
            decreases groups@.len() - p,
        {
            assert(before[p as int].0 == key_view(groups@[p as int].0));
            p = p + 1;
        }
        let found = p < groups.len() && key_equal(&groups[p].0, &kx);
        proof {
            if p < groups@.len() {
                assert(before[p as int].0 == key_view(groups@[p as int].0));
            }
            // no other group holds kv
            assert forall|g: int| 0 <= g < before.len() && g != p implies (#[trigger] before[g]).0 != kv by {
                if g < p {
                    lemma_key_lt_irreflexive(kv);
                } else {
                    assert(key_lt(before[p as int].0, before[g].0));
                    if !found {
                        lemma_key_lt_total(before[p as int].0, kv);
                        assert(key_lt(kv, before[p as int].0));
                        lemma_key_lt_transitive(kv, before[p as int].0, before[g].0);
                        lemma_key_lt_irreflexive(kv);
                    } else {
                        lemma_key_lt_irreflexive(kv);
                    }
                }
            }
        }
        if found {
            let mut grp = groups.remove(p);
            grp.1.push(x);
            groups.insert(p, grp);
            proof {
                let now = group_views(groups@);
                assert(now =~= before.update(p as int, (kv, before[p as int].1.push(s[i as int]))));
                assert forall|g: int| 0 <= g < now.len() implies (#[trigger] now[g]).1 == members(t2, now[g].0) && now[g].1.len() > 0 by {
                    if g != p {
                        assert(now[g] == before[g]);
                    }
                }
                assert forall|j: int| 0 <= j < t2.len() implies exists|g: int| 0 <= g < now.len() && (#[trigger] now[g]).0 == constraint_key(#[trigger] t2[j]) by {
                    if j == i {
                        assert(now[p as int].0 == constraint_key(t2[j]));
                    } else {
                        assert(t2[j] == t[j]);
                        let g = choose|g: int| 0 <= g < before.len() && (#[trigger] before[g]).0 == constraint_key(t[j]);
                        assert(now[g].0 == before[g].0);
                    }
                }
            }
        } else {
            let mut members_vec: Vec<SemanticConstraint> = Vec::new();
            members_vec.push(x);
            groups.insert(p, (kx, members_vec));
            proof {
                let now = group_views(groups@);
                assert(now =~= before.insert(p as int, (kv, seq![s[i as int]])));
                if members(t, kv).len() > 0 {
                    lemma_members_witness(t, kv);
                    let j = choose|j: int| 0 <= j < t.len() && constraint_key(#[trigger] t[j]) == kv;
                    let g = choose|g: int| 0 <= g < before.len() && (#[trigger] before[g]).0 == constraint_key(t[j]);
                }
                assert(members(t, kv) =~= Seq::<SemanticConstraint>::empty());
                assert(members(t2, kv) =~= seq![s[i as int]]);
                assert forall|g: int| 0 <= g < now.len() implies (#[trigger] now[g]).1 == members(t2, now[g].0) && now[g].1.len() > 0 by {
                    if g < p {
                        assert(now[g] == before[g]);
                    } else if g > p {
                        assert(now[g] == before[g - 1]);
                    }
                }
                assert forall|a: int, b: int| 0 <= a < b < now.len() implies key_lt((#[trigger] now[a]).0, (#[trigger] now[b]).0) by {
                    if p < before.len() {
                        lemma_key_lt_total(before[p as int].0, kv);
                    }
                    if a < p && b == p {
                    } else if a < p && b > p {
                        assert(now[a] == before[a] && now[b] == before[b - 1]);
                    } else if a == p {
                        assert(now[b] == before[b - 1]);
                        if b - 1 > p {
                            lemma_key_lt_transitive(kv, before[p as int].0, before[b - 1].0);
                        }
                    } else if a < p {
                        assert(now[a] == before[a] && now[b] == before[b]);
                    } else {
                        assert(now[a] == before[a - 1] && now[b] == before[b - 1]);
                    }
                }
                assert forall|j: int| 0 <= j < t2.len() implies exists|g: int| 0 <= g < now.len() && (#[trigger] now[g]).0 == constraint_key(#[trigger] t2[j]) by {
                    if j == i {
                        assert(now[p as int].0 == constraint_key(t2[j]));
                    } else {
                        assert(t2[j] == t[j]);
                        let g = choose|g: int| 0 <= g < before.len() && (#[trigger] before[g]).0 == constraint_key(t[j]);
                        if g < p {
                            assert(now[g].0 == before[g].0);
                        } else {
                            assert(now[g + 1].0 == before[g].0);
                        }
                    }
                }
            }
        }
        i = i + 1;
    }
    assert(s.subrange(0, s.len() as int) =~= s);
    groups
}

// ── the engine ───────────────────────────────────────────────────────────────

impl ConstraintEvalEngine {
    pub fn new() -> (e: Self) {
        ConstraintEvalEngine {  }
    }

    /// The node of each constraint, in order.
    pub fn constraints_to_nodes(&self, constraints: &[SemanticConstraint]) -> (r: Vec<SemanticNode>)
        ensures
            r@.len() == constraints@.len(),
            forall|i: int| 0 <= i < r@.len() ==> is_node_of(#[trigger] r@[i], constraints@[i]),
    {
        let mut out: Vec<SemanticNode> = Vec::new();
        let mut i: usize = 0;
        while i < constraints.len()
            invariant
                i <= constraints@.len(),
                out@.len() == i,
                forall|k: int| 0 <= k < i ==> is_node_of(#[trigger] out@[k], constraints@[k]),
            decreases constraints@.len() - i,
        {
            let c = &constraints[i];
            let mut concept = c.subject.clone();
            push_str(&mut concept, ":");
            push_str(&mut concept, c.predicate.as_str());
            out.push(SemanticNode::new(concept.as_str(), c.affirmed, c.weight));
            i = i + 1;
        }
        out
    }

    /// The field of the nodes: node `i` at x = i, y = ±1 by polarity and
    /// z = confidence, with its signed confidence as intensity.
    pub fn project_nodes_to_field(&self, nodes: &[SemanticNode]) -> (f: SemanticField)
        requires
            nodes@.len() <= i64::MAX,
        ensures
            f@ == projected(nodes@),
    {
        let mut field = SemanticField::new();
        let mut i: usize = 0;
        assert(nodes@.subrange(0, 0) =~= Seq::<SemanticNode>::empty());
        while i < nodes.len()
            invariant
                i <= nodes@.len(),
                nodes@.len() <= i64::MAX,
                field@ == projected(nodes@.subrange(0, i as int)),
            decreases nodes@.len() - i,
        {
            let node = &nodes[i];
            let y: i64 = if node.polarity {
                1
            } else {
                -1
            };
            let z = node.confidence as i64;
            let intensity: i64 = if node.polarity {
                node.confidence as i64
            } else {
                -(node.confidence as i64)
            };
            let point = FieldPoint { position: Coordinate3::new(i as i64, y, z), intensity };
            proof {
                lemma_projected_step(nodes@, i as int);
            }
            field.upsert_concept(node.concept.as_str(), point);
            i = i + 1;
        }
        assert(nodes@.subrange(0, nodes@.len() as int) =~= nodes@);
        field
    }

    /// Checks one constraint: a blank subject or predicate is a consistency
    /// violation naming both; otherwise weight zero is a violation.
    pub fn evaluate(&self, constraint: &SemanticConstraint) -> (r: Result<ConstraintStatus, InvariantViolation>)
        ensures
            is_malformed(*constraint) ==> r is Err && is_consistency(
                r->Err_0,
                "subject/predicate cannot be empty"@,
                seq![constraint.subject@, constraint.predicate@],
            ),
            !is_malformed(*constraint) ==> r == Ok::<ConstraintStatus, InvariantViolation>(
                status_of(*constraint),
            ),
    {
        if trim_text(constraint.subject.as_str()).is_empty() || trim_text(
            constraint.predicate.as_str(),
        ).is_empty() {
            let terms = vec![constraint.subject.clone(), constraint.predicate.clone()];
            assert(views(terms@) =~= seq![constraint.subject@, constraint.predicate@]);
            return Err(
                InvariantViolation::Consistency {
                    message: text("subject/predicate cannot be empty"),
                    contradicting_terms: terms,
                },
            );
        }
        if constraint.weight == 0 {
            return Ok(ConstraintStatus::Violated);
        }
        Ok(ConstraintStatus::Satisfied)
    }

    /// Each constraint whose first earlier constraint with the same key has
    /// the other polarity, with that earlier position and a message.
    pub fn detect_conflicts(&self, constraints: &[SemanticConstraint]) -> (r: Vec<(usize, usize, String)>)
        ensures
            r@.len() == conflicts_of(constraints@).len(),
            forall|k: int|
                0 <= k < r@.len() ==> {
                    let c = conflicts_of(constraints@)[k];
                    &&& (#[trigger] r@[k]).0 == c.0
                    &&& r@[k].1 == c.1
                    &&& r@[k].2@ == c.2
                },
    {
        let ghost s = constraints@;
        let mut out: Vec<(usize, usize, String)> = Vec::new();
        let mut idx: usize = 0;
        while idx < constraints.len()
            invariant
                s == constraints@,
                idx <= s.len(),
                out@.len() == conflicts_upto(s, idx as int).len(),
                forall|k: int|
                    0 <= k < out@.len() ==> {
                        let c = conflicts_upto(s, idx as int)[k];
                        &&& (#[trigger] out@[k]).0 == c.0
                        &&& out@[k].1 == c.1
                        &&& out@[k].2@ == c.2
                    },
            decreases s.len() - idx,
        {
            let c = &constraints[idx];
            let mut j: usize = 0;
            while j < idx && !same_key(&constraints[j], c)
                invariant
                    j <= idx < s.len(),
                    s == constraints@,
                    *c == s[idx as int],
                    first_same_key(s, idx as int, 0) == first_same_key(s, idx as int, j as int),
                decreases idx - j,
            {
                j = j + 1;
            }
            proof {
                lemma_conflicts_step(s, idx as int);
            }
            if j < idx && constraints[j].affirmed != c.affirmed {
                let mut msg = text("Conflict on ");
                push_str(&mut msg, c.subject.as_str());
                push_str(&mut msg, ":");
                push_str(&mut msg, c.predicate.as_str());
                push_str(&mut msg, " polarity mismatch");
                out.push((j, idx, msg));
            }
            idx = idx + 1;
        }
        out
    }

    /// Refuses a set with polarity conflicts (recording how many in the
    /// audit trail); otherwise returns the constraints in constraint order
    /// and records how many were resolved.
    pub fn resolve_contradictions(
        &self,
        constraints: &[SemanticConstraint],
        audit_trail: &mut Vec<String>,
    ) -> (r: Result<Vec<SemanticConstraint>, InvariantViolation>)
        ensures
            conflicts_of(constraints@).len() > 0 ==> {
                &&& r is Err
                &&& is_consistency(
                    r->Err_0,
                    "unable to auto-resolve contradictory constraints"@,
                    conflicts_of(constraints@).map_values(|c: (int, int, Seq<char>)| c.2),
                )
                &&& views(final(audit_trail)@) == views(old(audit_trail)@).push(
                    dec_nat(conflicts_of(constraints@).len()) + " conflict(s) detected"@,
                )
            },
            conflicts_of(constraints@).len() == 0 ==> {
                &&& r is Ok
                &&& r->Ok_0@ == stable_sorted(constraints@)
                &&& views(final(audit_trail)@) == views(old(audit_trail)@).push(
                    "resolved "@ + dec_nat(constraints@.len()) + " constraints"@,
                )
            },
    {
        let conflicts = self.detect_conflicts(constraints);
        if conflicts.len() > 0 {
            let mut line = String::new();
            push_usize(&mut line, conflicts.len());
            push_str(&mut line, " conflict(s) detected");
            let ghost before = audit_trail@;
            audit_trail.push(line);
            assert(views(audit_trail@) =~= views(before).push(
                dec_nat(conflicts_of(constraints@).len()) + " conflict(s) detected"@,
            ));
            let mut terms: Vec<String> = Vec::new();
            let mut k: usize = 0;
            while k < conflicts.len()
                invariant
                    k <= conflicts@.len(),
                    conflicts@.len() == conflicts_of(constraints@).len(),
                    forall|q: int|
                        0 <= q < conflicts@.len() ==> (#[trigger] conflicts@[q]).2@ == conflicts_of(
                            constraints@,
                        )[q].2,
                    views(terms@) == conflicts_of(constraints@).subrange(0, k as int).map_values(
                        |c: (int, int, Seq<char>)| c.2,
                    ),
                decreases conflicts@.len() - k,
            {
                let ghost before_terms = views(terms@);
                let t = conflicts[k].2.clone();
                assert(t@ == conflicts_of(constraints@)[k as int].2);
                terms.push(t);
                assert(views(terms@) =~= before_terms.push(t@));
                k = k + 1;
                assert(views(terms@) =~= conflicts_of(constraints@).subrange(0, k as int).map_values(
                    |c: (int, int, Seq<char>)| c.2,
                ));
            }
            assert(conflicts_of(constraints@).subrange(0, k as int) =~= conflicts_of(constraints@));
            return Err(
                InvariantViolation::Consistency {
                    message: text("unable to auto-resolve contradictory constraints"),
                    contradicting_terms: terms,
                },
            );
        }
        let out = sort_constraints(constraints);
        let mut line = text("resolved ");
        push_usize(&mut line, out.len());
        push_str(&mut line, " constraints");
        let ghost before = audit_trail@;
        audit_trail.push(line);
        assert(views(audit_trail@) =~= views(before).push(
            "resolved "@ + dec_nat(constraints@.len()) + " constraints"@,
        ));
        Ok(out)
    }

    /// Picks the sense of `subject` by field interference, with no margin.
    pub fn disambiguate_subject_senses(&self, field: &SemanticField, subject: &str) -> (r: Option<DisambiguationDecision>)
        requires
            senses_fit(senses_of(field@, subject@)),
        ensures
            senses_of(field@, subject@).len() < 2 ==> r is None,
            senses_of(field@, subject@).len() >= 2 ==> r is Some && is_decision(
                r->Some_0,
                senses_of(field@, subject@),
                subject@,
                0,
            ),
    {
        self.disambiguate_subject_senses_with_margin(field, subject, 0)
    }

    /// Picks the sense of `subject` among the field's concepts `subject:…`:
    /// none with fewer than two; otherwise every candidate scored (support =
    /// intensity × 1000, plus its interference with the others) and ranked
    /// by score, then concept; the first is selected, and the decision is
    /// unresolved when the gap to the second is at most the margin.
    pub fn disambiguate_subject_senses_with_margin(
        &self,
        field: &SemanticField,
        subject: &str,
        ambiguity_margin: i64,
    ) -> (r: Option<DisambiguationDecision>)
        requires
            senses_fit(senses_of(field@, subject@)),
        ensures
            senses_of(field@, subject@).len() < 2 ==> r is None,
            senses_of(field@, subject@).len() >= 2 ==> r is Some && is_decision(
                r->Some_0,
                senses_of(field@, subject@),
                subject@,
                ambiguity_margin,
            ),
    {
        let mut prefix = text(subject);
        push_str(&mut prefix, ":");
        let candidates = sense_candidates(field, prefix.as_str());
        let ghost c = pairs_view(candidates@);
        if candidates.len() < 2 {
            return None;
        }
        let scored_list = score_senses(&candidates);
        proof {
            assert(score_views(scored_list@).len() == scored_list@.len());
            assert(scored(c).len() == c.len());
            assert forall|a: int, b: int| 0 <= a < b < scored_list@.len() implies text_lt(
                #[trigger] score_views(scored_list@)[a].0,
                #[trigger] score_views(scored_list@)[b].0,
            ) by {
                assert(score_views(scored_list@)[a] == scored(c)[a]);
                assert(score_views(scored_list@)[b] == scored(c)[b]);
                assert(text_lt(c[a].0, c[b].0));
            }
        }
        let ranked = rank_scores(&scored_list);
        proof {
            lemma_gap_fits(score_views(ranked@), c);
            assert(score_views(ranked@)[0].3 == ranked@[0].score);
            assert(score_views(ranked@)[1].3 == ranked@[1].score);
        }
        let score_gap = ranked[0].score - ranked[1].score;
        let unresolved = score_gap <= ambiguity_margin;
        let selected_concept = ranked[0].concept.clone();
        Some(
            DisambiguationDecision {
                subject: text(subject),
                selected_concept,
                score_gap,
                unresolved,
                candidates: ranked,
            },
        )
    }

    /// Resolves contradictions group by group: the constraints are grouped
    /// by key, the groups handed to the scheduler in key order, and each
    /// reduced to one constraint (see `reduction`); the result has one
    /// constraint per key, in key order. The audit trail gets a summary line
    /// and then each conflict report.
    pub fn resolve_contradictions_parallel_deterministic(
        &self,
        constraints: &[SemanticConstraint],
        scheduler: &TaskScheduler,
        worker_count: usize,
        audit_trail: &mut Vec<String>,
    ) -> (r: Result<(Vec<SemanticConstraint>, ParallelResolutionSummary), InvariantViolation>)
        requires
            group_weights_fit(constraints@),
        ensures
            r is Ok,
            r->Ok_0.1.worker_count == (if worker_count > 0 {
                worker_count
            } else {
                1
            }),
            constraints@.len() == 0 ==> {
                &&& r->Ok_0.0@.len() == 0
                &&& r->Ok_0.1.groups_processed == 0
                &&& r->Ok_0.1.conflicts_resolved == 0
                &&& views(final(audit_trail)@) == views(old(audit_trail)@).push(
                    "parallel contradiction resolution: no constraints"@,
                )
            },
            constraints@.len() > 0 ==> {
                let reports = conflict_reports(keys_of(r->Ok_0.0@), constraints@);
                &&& is_grouped_resolution(r->Ok_0.0@, constraints@)
                &&& r->Ok_0.1.groups_processed == r->Ok_0.0@.len()
                &&& r->Ok_0.1.conflicts_resolved == reports.len()
                &&& views(final(audit_trail)@) == views(old(audit_trail)@).push(
                    "parallel contradiction resolution groups="@ + dec_nat(r->Ok_0.0@.len()) + " conflicts_resolved="@
                        + dec_nat(reports.len()),
                ) + reports
            },
    {
        let workers = if worker_count > 0 {
            worker_count
        } else {
            1
        };
        if constraints.len() == 0 {
            audit_trail.push(text("parallel contradiction resolution: no constraints"));
            return Ok(
                (
                    Vec::new(),
                    ParallelResolutionSummary { worker_count: workers, groups_processed: 0, conflicts_resolved: 0 },
                ),
            );
        }
        let ghost s = constraints@;
        let mut groups = group_by_key(constraints);
        let ghost gs = group_views(groups@);
        let mut tasks: Vec<ScheduledTask<((String, String, Option<String>), Vec<SemanticConstraint>)>> = Vec::new();
        let mut k: usize = 0;
        let n = groups.len();
        while groups.len() > 0
            invariant
                k + groups@.len() == n,
                n == gs.len(),
                forall|q: int| 0 <= q < groups@.len() ==> group_views(groups@)[q] == gs[k + q],
                tasks@.len() == k,
                forall|q: int|
                    0 <= q < k ==> (#[trigger] tasks@[q]).id == q + 1 && (key_view(tasks@[q].payload.0), tasks@[q].payload.1@) == gs[q],
            decreases groups@.len(),
        {
            let ghost before = group_views(groups@);
            let g = groups.remove(0);
            assert(group_views(groups@) =~= before.drop_first());
            assert((key_view(g.0), g.1@) == before[0]);
            tasks.push(ScheduledTask { id: k as u64 + 1, payload: g });
            k = k + 1;
        }
        proof {
            assert forall|q: int| 0 <= q < tasks@.len() implies weight_sum((#[trigger] tasks@[q]).payload.1@, true)
                <= u16::MAX && weight_sum(tasks@[q].payload.1@, false) <= u16::MAX && tasks@[q].payload.1@.len() > 0 by {
                assert(gs[q].1 == members(s, gs[q].0));
                lemma_members_witness(s, gs[q].0);
                let j = choose|j: int| 0 <= j < s.len() && constraint_key(#[trigger] s[j]) == gs[q].0;
                assert(weight_sum(members(s, constraint_key(s[j])), true) <= u16::MAX);
            }
        }
        let reduce = |task: &ScheduledTask<((String, String, Option<String>), Vec<SemanticConstraint>)>| -> (out: (
            SemanticConstraint,
            Option<String>,
        ))
            requires
                task.payload.1@.len() > 0,
                weight_sum(task.payload.1@, true) <= u16::MAX,
                weight_sum(task.payload.1@, false) <= u16::MAX,
            ensures
                out.0 == reduction(key_view(task.payload.0), task.payload.1@).0,
                opt_view(out.1) == reduction(key_view(task.payload.0), task.payload.1@).1,
            { reduce_group(&task.payload.0, &task.payload.1) };
        let ghost task_seq = tasks@;
        let reduced = scheduler.run_deterministic(tasks, reduce);
        proof {
            let perm = choose|perm: Seq<int>| {
                &&& is_stable_id_order(task_seq, perm)
                &&& reduced@.len() == task_seq.len()
                &&& forall|q: int|
                    0 <= q < reduced@.len() ==> reduce.ensures((&task_seq[perm[q]],), #[trigger] reduced@[q])
            };
            lemma_identity_order(task_seq, perm);
            assert forall|q: int| 0 <= q < reduced@.len() implies (#[trigger] reduced@[q]).0 == reduction(
                gs[q].0,
                gs[q].1,
            ).0 && opt_view(reduced@[q].1) == reduction(gs[q].0, gs[q].1).1 by {
                assert(perm[q] == q);
                assert(reduce.ensures((&task_seq[q],), reduced@[q]));
            }
        }
        let mut resolved: Vec<SemanticConstraint> = Vec::new();
        let mut reports: Vec<String> = Vec::new();
        let mut q: usize = 0;
        while q < reduced.len()
            invariant
                q <= reduced@.len(),
                reduced@.len() == gs.len(),
                groups_of(gs, s),
                forall|m: int|
                    0 <= m < reduced@.len() ==> (#[trigger] reduced@[m]).0 == reduction(gs[m].0, gs[m].1).0
                        && opt_view(reduced@[m].1) == reduction(gs[m].0, gs[m].1).1,
                resolved@.len() == q,
                forall|m: int| 0 <= m < q ==> #[trigger] resolved@[m] == reduced@[m].0,
                forall|m: int| 0 <= m < q ==> constraint_key(#[trigger] resolved@[m]) == gs[m].0,
                views(reports@) == conflict_reports(keys_of(resolved@), s),
            decreases reduced@.len() - q,
        {
            let ghost before = resolved@;
            let ghost before_reports = views(reports@);
            proof {
                lemma_reduction_key(s, gs[q as int].0);
            }
            resolved.push(reduced[q].0.duplicate());
            assert(keys_of(resolved@).drop_last() =~= keys_of(before));
            assert(keys_of(resolved@).last() == gs[q as int].0);
            match &reduced[q].1 {
                Some(msg) => {
                    reports.push(msg.clone());
                    assert(views(reports@) =~= before_reports.push(msg@));
                },
                None => {},
            }
            q = q + 1;
        }
        let report_count = reports.len();
        let groups_processed = resolved.len();
        let mut header = text("parallel contradiction resolution groups=");
        push_usize(&mut header, groups_processed);
        push_str(&mut header, " conflicts_resolved=");
        push_usize(&mut header, report_count);
        let ghost start = views(audit_trail@);
        audit_trail.push(header);
        let mut t: usize = 0;
        while t < reports.len()
            invariant
                t <= reports@.len(),
                views(audit_trail@) == start.push(
                    "parallel contradiction resolution groups="@ + dec_nat(groups_processed as nat) + " conflicts_resolved="@
                        + dec_nat(report_count as nat),
                ) + views(reports@).subrange(0, t as int),
            decreases reports@.len() - t,
        {
            let ghost b = views(audit_trail@);
            let line = reports[t].clone();
            assert(line@ == views(reports@)[t as int]);
            audit_trail.push(line);
            assert(views(audit_trail@) =~= b.push(line@));
            assert(views(reports@).subrange(0, t + 1) =~= views(reports@).subrange(0, t as int).push(line@));
            t = t + 1;
            assert(views(audit_trail@) =~= start.push(
                "parallel contradiction resolution groups="@ + dec_nat(groups_processed as nat) + " conflicts_resolved="@
                    + dec_nat(report_count as nat),
            ) + views(reports@).subrange(0, t as int));
        }
        assert(views(reports@).subrange(0, reports@.len() as int) =~= views(reports@));
        proof {
            assert forall|a: int, b: int| 0 <= a < b < resolved@.len() implies key_lt(
                constraint_key(#[trigger] resolved@[a]),
                constraint_key(#[trigger] resolved@[b]),
            ) by {
                assert(key_lt(gs[a].0, gs[b].0));
            }
            assert forall|m: int| 0 <= m < resolved@.len() implies members(s, constraint_key(#[trigger] resolved@[m])).len()
                > 0 && resolved@[m] == reduction(constraint_key(resolved@[m]), members(s, constraint_key(resolved@[m]))).0 by {
                assert(gs[m].1 == members(s, gs[m].0));
            }
            assert forall|j: int| 0 <= j < s.len() implies exists|m: int|
                0 <= m < resolved@.len() && constraint_key(#[trigger] resolved@[m]) == constraint_key(#[trigger] s[j]) by {
                let g = choose|g: int| 0 <= g < gs.len() && (#[trigger] gs[g]).0 == constraint_key(s[j]);
                assert(constraint_key(resolved@[g]) == gs[g].0);
            }
        }
        Ok(
            (
                resolved,
                ParallelResolutionSummary { worker_count: workers, groups_processed, conflicts_resolved: report_count },
            ),
        )
    }
}

} // verus!
