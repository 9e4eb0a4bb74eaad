//! Per-subject evidence scores over a constraint set, and the choice of the
//! subject that ranks highest under a given score, ties going to the
//! subject that sorts first.
use vstd::prelude::*;
use crate::cognition::constraint::SemanticConstraint;
use crate::text::{ascii_lower, contains_ascii_lower, distinct_sorted_texts, has_sub,
    lemma_text_lt_irreflexive, lemma_text_lt_total, lemma_text_lt_transitive, less_than, same_text,
    strictly_sorted_texts, text_lt, views};

verus! {

/// More constraints than this cannot be held in a 48-bit address space
/// (each one takes well over 64 bytes).
pub const MAX_CONSTRAINTS: u64 = 0x400_0000_0000;

/// A per-constraint quantity that is summed per subject.
#[derive(Debug, Clone, Copy, PartialEq, Eq, Structural)]
pub enum Metric {
    /// The weight, negated for a negated constraint.
    Signed,
    /// The weight.
    Weight,
    /// One per constraint.
    Count,
    /// Continuity/external stress of a negated constraint.
    ExternalStress,
    /// Contradiction stress: negations, support demands and risk flags.
    DominatedStress,
    /// Closure-deficit stress.
    DeficitStress,
    /// Affirmed structural support.
    Support,
    /// Affirmed links to another subject.
    Link,
    /// Affirmed continuity evidence.
    ContinuityAffirmed,
    /// Negated continuity evidence.
    ContinuityNegated,
    /// Contradiction pressure of a repair region.
    RegionPressure,
    /// Boundary or edge mentions.
    BoundaryMentions,
    /// Bridge, support, rebind or stitch mentions.
    BridgeMentions,
    /// Contradiction pressure over the whole set.
    ContradictionPressure,
    /// Affirmed support demands over the whole set.
    SupportBinding,
}

// ── model ────────────────────────────────────────────────────────────────────

/// The lower-cased predicate of `c` mentions `word`.
pub open spec fn mentions(c: SemanticConstraint, word: Seq<char>) -> bool {
    has_sub(ascii_lower(c.predicate@), word)
}

pub open spec fn risk_flag(c: SemanticConstraint) -> bool {
    mentions(c, "is_high"@) || mentions(c, "fall_risk"@) || mentions(c, "collapse_risk"@)
}

/// What constraint `c` adds to metric `m`.
pub open spec fn contribution(m: Metric, c: SemanticConstraint) -> int {
    let w = c.weight as int;
    match m {
        Metric::Signed => if c.affirmed {
            w
        } else {
            -w
        },
        Metric::Weight => w,
        Metric::Count => 1,
        Metric::ExternalStress => if !c.affirmed {
            w + (if mentions(c, "continuity"@) {
                w
            } else {
                0
            }) + (if mentions(c, "external"@) || mentions(c, "noise"@) || mentions(c, "noisy"@)
                || mentions(c, "drift"@) || mentions(c, "contradiction"@) {
                w
            } else {
                0
            })
        } else {
            0
        },
        Metric::DominatedStress => (if !c.affirmed {
            w
        } else {
            0
        }) + (if c.affirmed && mentions(c, "requires_support"@) {
            2 * w
        } else {
            0
        }) + (if c.affirmed && risk_flag(c) {
            w
        } else {
            0
        }),
        Metric::DeficitStress => (if !c.affirmed {
            w + (if mentions(c, "continuity"@) {
                w
            } else {
                0
            }) + (if mentions(c, "contradiction"@) || mentions(c, "drift"@) || mentions(c, "noise"@)
                || mentions(c, "collapse_risk"@) || mentions(c, "fall_risk"@) {
                w / 2
            } else {
                0
            })
        } else {
            0
        }) + (if c.affirmed && mentions(c, "requires_support"@) {
            2 * w
        } else {
            0
        }) + (if c.affirmed && risk_flag(c) {
            w
        } else {
            0
        }),
        Metric::Support => if c.affirmed && (mentions(c, "holds_shape"@) || mentions(c, "rejects_drift"@)
            || mentions(c, "steady_support"@) || mentions(c, "bounded_change"@) || mentions(c, "stabil"@)
            || mentions(c, "bridge"@) || mentions(c, "stitch"@) || mentions(c, "bind"@)) {
            w
        } else {
            0
        },
        Metric::Link => if c.affirmed && c.object is Some {
            w
        } else {
            0
        },
        Metric::ContinuityAffirmed => if c.affirmed && mentions(c, "continuity"@) {
            w
        } else {
            0
        },
        Metric::ContinuityNegated => if !c.affirmed && mentions(c, "continuity"@) {
            w
        } else {
            0
        },
        Metric::RegionPressure => (if !c.affirmed {
            w
        } else {
            0
        }) + (if c.affirmed && (mentions(c, "requires_support"@) || mentions(c, "is_high"@) || mentions(
            c,
            "fall_risk"@,
        ) || mentions(c, "collapse_risk"@) || mentions(c, "contradiction"@)) {
            w
        } else {
            0
        }),
        Metric::BoundaryMentions => if mentions(c, "boundary"@) || mentions(c, "edge"@) {
            1
        } else {
            0
        },
        Metric::BridgeMentions => if mentions(c, "bridge"@) || mentions(c, "support"@) || mentions(c, "rebind"@)
            || mentions(c, "stitch"@) {
            1
        } else {
            0
        },
        Metric::ContradictionPressure => if !c.affirmed || mentions(c, "requires_support"@) || risk_flag(c) {
            w
        } else {
            0
        },
        Metric::SupportBinding => if c.affirmed && mentions(c, "requires_support"@) {
            w
        } else {
            0
        },
    }
}

/// The sum of metric `m` over the constraints about `subject`.
pub open spec fn subject_sum(s: Seq<SemanticConstraint>, subject: Seq<char>, m: Metric) -> int
    decreases s.len(),
{
    if s.len() == 0 {
        0
    } else {
        subject_sum(s.drop_last(), subject, m) + if s.last().subject@ == subject {
            contribution(m, s.last())
        } else {
            0
        }
    }
}

/// The sum of metric `m` over all constraints.
pub open spec fn total_sum(s: Seq<SemanticConstraint>, m: Metric) -> int
    decreases s.len(),
{
    if s.len() == 0 {
        0
    } else {
        total_sum(s.drop_last(), m) + contribution(m, s.last())
    }
}

/// The subjects of the constraints.
pub open spec fn subjects_of(s: Seq<SemanticConstraint>) -> Set<Seq<char>> {
    s.map_values(|c: SemanticConstraint| c.subject@).to_set()
}

/// A subject-selection rule.
#[derive(Debug, Clone, Copy, PartialEq, Eq, Structural)]
pub enum Selector {
    /// Highest coherence, then stability, total weight, constraint count.
    Anchor,
    /// As `Anchor`, among the subjects other than the excluded one.
    AnchorExcluding,
    /// Highest stability, then coherence, total weight, constraint count,
    /// among the subjects other than the excluded one.
    StableRegion,
    /// Highest continuity/external stress, among stressed subjects.
    ExternalStress,
    /// Strongest mixed continuity evidence (least imbalance, then most
    /// evidence), among subjects with affirmed evidence at least the negated.
    Plateau,
    /// Highest contradiction stress, among stressed subjects.
    Dominated,
    /// Largest closure deficit, then stress, least link and support, among
    /// subjects with positive stress and deficit.
    Deficit,
}

pub open spec fn min_int(a: int, b: int) -> int {
    if a < b {
        a
    } else {
        b
    }
}

pub open spec fn abs_diff(a: int, b: int) -> int {
    if a >= b {
        a - b
    } else {
        b - a
    }
}

/// The closure deficit of a subject: stress less half its support and half
/// its links.
pub open spec fn deficit_of(s: Seq<SemanticConstraint>, y: Seq<char>) -> int {
    subject_sum(s, y, Metric::DeficitStress) - subject_sum(s, y, Metric::Support) / 2 - subject_sum(
        s,
        y,
        Metric::Link,
    ) / 2
}

/// The ranking key of subject `y` under selector `sel`.
pub open spec fn key_of(sel: Selector, s: Seq<SemanticConstraint>, y: Seq<char>) -> Seq<int> {
    let coherence = subject_sum(s, y, Metric::Signed);
    let total = subject_sum(s, y, Metric::Weight);
    let count = subject_sum(s, y, Metric::Count);
    let pos = subject_sum(s, y, Metric::ContinuityAffirmed);
    let neg = subject_sum(s, y, Metric::ContinuityNegated);
    match sel {
        Selector::Anchor => seq![coherence, coherence, total, count],
        Selector::AnchorExcluding => seq![coherence, coherence, total, count],
        Selector::StableRegion => seq![coherence, coherence, total, count],
        Selector::ExternalStress => seq![subject_sum(s, y, Metric::ExternalStress)],
        Selector::Plateau => seq![min_int(pos, neg), -abs_diff(pos, neg), pos + neg],
        Selector::Dominated => seq![subject_sum(s, y, Metric::DominatedStress)],
        Selector::Deficit => seq![
            deficit_of(s, y),
            subject_sum(s, y, Metric::DeficitStress),
            -subject_sum(s, y, Metric::Link),
            -subject_sum(s, y, Metric::Support),
        ],
    }
}

/// Whether subject `y` may be chosen by selector `sel`.
pub open spec fn eligible(sel: Selector, s: Seq<SemanticConstraint>, y: Seq<char>, excluded: Seq<char>) -> bool {
    let pos = subject_sum(s, y, Metric::ContinuityAffirmed);
    let neg = subject_sum(s, y, Metric::ContinuityNegated);
    match sel {
        Selector::Anchor => true,
        Selector::AnchorExcluding => y != excluded,
        Selector::StableRegion => y != excluded,
        Selector::ExternalStress => subject_sum(s, y, Metric::ExternalStress) > 0,
        Selector::Plateau => min_int(pos, neg) > 0 && pos >= neg,
        Selector::Dominated => subject_sum(s, y, Metric::DominatedStress) > 0,
        Selector::Deficit => deficit_of(s, y) > 0 && subject_sum(s, y, Metric::DeficitStress) > 0,
    }
}

/// Lexicographically greater.
pub open spec fn lex_gt(a: Seq<int>, b: Seq<int>) -> bool
    decreases a.len(),
{
    if a.len() == 0 || b.len() == 0 {
        false
    } else if a[0] != b[0] {
        a[0] > b[0]
    } else {
        lex_gt(a.drop_first(), b.drop_first())
    }
}

/// `a` with key `ka` ranks above `b` with key `kb`: a greater key, or an
/// equal key and a name that sorts first.
pub open spec fn ranks_above(ka: Seq<int>, a: Seq<char>, kb: Seq<int>, b: Seq<char>) -> bool {
    lex_gt(ka, kb) || (ka == kb && text_lt(a, b))
}

/// `x` is an eligible subject that ranks above every other eligible subject.
pub open spec fn is_best(sel: Selector, s: Seq<SemanticConstraint>, excluded: Seq<char>, x: Seq<char>) -> bool {
    &&& subjects_of(s).contains(x)
    &&& eligible(sel, s, x, excluded)
    &&& forall|y: Seq<char>|
        #![trigger subjects_of(s).contains(y)]
        subjects_of(s).contains(y) && y != x && eligible(sel, s, y, excluded) ==> ranks_above(
            key_of(sel, s, x),
            x,
            key_of(sel, s, y),
            y,
        )
}

/// The subject selector `sel` picks, if any subject is eligible.
pub open spec fn best(sel: Selector, s: Seq<SemanticConstraint>, excluded: Seq<char>) -> Option<Seq<char>> {
    if exists|x: Seq<char>| is_best(sel, s, excluded, x) {
        Some(choose|x: Seq<char>| is_best(sel, s, excluded, x))
    } else {
        None
    }
}

// ── lemmas ───────────────────────────────────────────────────────────────────

proof fn lemma_lex_gt_asymmetric(a: Seq<int>, b: Seq<int>)
    ensures
        !(lex_gt(a, b) && lex_gt(b, a)),
    decreases a.len(),
{
    if a.len() > 0 && b.len() > 0 && a[0] == b[0] {
        lemma_lex_gt_asymmetric(a.drop_first(), b.drop_first());
    }
}

proof fn lemma_lex_gt_transitive(a: Seq<int>, b: Seq<int>, c: Seq<int>)
    requires
        lex_gt(a, b),
        lex_gt(b, c),
    ensures
        lex_gt(a, c),
    decreases a.len(),
{
    if a[0] == b[0] && b[0] == c[0] {
        lemma_lex_gt_transitive(a.drop_first(), b.drop_first(), c.drop_first());
    }
}

proof fn lemma_lex_gt_total(a: Seq<int>, b: Seq<int>)
    requires
        a.len() == b.len(),
        a != b,
    ensures
        lex_gt(a, b) || lex_gt(b, a),
    decreases a.len(),
{
    if a.len() == 0 {
        assert(a =~= b);
    } else if a[0] == b[0] {
        if a.drop_first() == b.drop_first() {
            assert(a =~= seq![a[0]] + a.drop_first());
            assert(b =~= seq![b[0]] + b.drop_first());
        }
        lemma_lex_gt_total(a.drop_first(), b.drop_first());
    }
}

proof fn lemma_ranks_above_asymmetric(ka: Seq<int>, a: Seq<char>, kb: Seq<int>, b: Seq<char>)
    ensures
        !(ranks_above(ka, a, kb, b) && ranks_above(kb, b, ka, a)),
{
    lemma_lex_gt_asymmetric(ka, kb);
    if ka == kb {
        lemma_lex_gt_asymmetric(ka, ka);
        if text_lt(a, b) && text_lt(b, a) {
            lemma_text_lt_transitive(a, b, a);
            lemma_text_lt_irreflexive(a);
        }
    }
}

proof fn lemma_ranks_above_transitive(
    ka: Seq<int>,
    a: Seq<char>,
    kb: Seq<int>,
    b: Seq<char>,
    kc: Seq<int>,
    c: Seq<char>,
)
    requires
        ranks_above(ka, a, kb, b),
        ranks_above(kb, b, kc, c),
    ensures
        ranks_above(ka, a, kc, c),
{
    if lex_gt(ka, kb) && lex_gt(kb, kc) {
        lemma_lex_gt_transitive(ka, kb, kc);
    } else if ka == kb && kb == kc {
        lemma_text_lt_transitive(a, b, c);
    }
}

proof fn lemma_ranks_above_total(ka: Seq<int>, a: Seq<char>, kb: Seq<int>, b: Seq<char>)
    requires
        ka.len() == kb.len(),
        a != b,
    ensures
        ranks_above(ka, a, kb, b) || ranks_above(kb, b, ka, a),
{
    if ka != kb {
        lemma_lex_gt_total(ka, kb);
    } else {
        lemma_text_lt_total(a, b);
    }
}

proof fn lemma_key_len(sel: Selector, s: Seq<SemanticConstraint>, y: Seq<char>, z: Seq<char>)
    ensures
        key_of(sel, s, y).len() == key_of(sel, s, z).len(),
{
}

/// At most one subject is the best.
proof fn lemma_best_unique(sel: Selector, s: Seq<SemanticConstraint>, excluded: Seq<char>, x: Seq<char>)
    requires
        is_best(sel, s, excluded, x),
    ensures
        best(sel, s, excluded) == Some(x),
{
    let c = choose|z: Seq<char>| is_best(sel, s, excluded, z);
    assert(is_best(sel, s, excluded, c));
    if c != x {
        assert(subjects_of(s).contains(c));
        assert(subjects_of(s).contains(x));
        lemma_ranks_above_asymmetric(key_of(sel, s, x), x, key_of(sel, s, c), c);
    }
}

proof fn lemma_contribution_bounds(m: Metric, c: SemanticConstraint)
    ensures
        -1000 <= contribution(m, c) <= 1000,
        m != Metric::Signed ==> contribution(m, c) >= 0,
{
}

pub proof fn lemma_subject_sum_bounds(s: Seq<SemanticConstraint>, y: Seq<char>, m: Metric)
    ensures
        -1000 * s.len() <= subject_sum(s, y, m) <= 1000 * s.len(),
        m != Metric::Signed ==> subject_sum(s, y, m) >= 0,
    decreases s.len(),
{
    if s.len() > 0 {
        lemma_subject_sum_bounds(s.drop_last(), y, m);
        lemma_contribution_bounds(m, s.last());
    }
}

pub proof fn lemma_total_sum_bounds(s: Seq<SemanticConstraint>, m: Metric)
    ensures
        -1000 * s.len() <= total_sum(s, m) <= 1000 * s.len(),
        m != Metric::Signed ==> total_sum(s, m) >= 0,
    decreases s.len(),
{
    if s.len() > 0 {
        lemma_total_sum_bounds(s.drop_last(), m);
        lemma_contribution_bounds(m, s.last());
    }
}

// ── exec ─────────────────────────────────────────────────────────────────────

fn mentions_exec(c: &SemanticConstraint, word: &str) -> (r: bool)
    ensures
        r == has_sub(ascii_lower(c.predicate@), word@),
{
    contains_ascii_lower(c.predicate.as_str(), word)
}

/// What one constraint adds to a metric.
pub fn contribution_of(m: Metric, c: &SemanticConstraint) -> (r: i64)
    ensures
        r == contribution(m, *c),
{
    let w = c.weight as i64;
    match m {
        Metric::Signed => if c.affirmed {
            w
        } else {
            -w
        },
        Metric::Weight => w,
        Metric::Count => 1,
        Metric::ExternalStress => {
            if c.affirmed {
                0
            } else {
                let a = if mentions_exec(c, "continuity") {
                    w
                } else {
                    0
                };
                let b = if mentions_exec(c, "external") || mentions_exec(c, "noise") || mentions_exec(c, "noisy")
                    || mentions_exec(c, "drift") || mentions_exec(c, "contradiction") {
                    w
                } else {
                    0
                };
                w + a + b
            }
        },
        Metric::DominatedStress => {
            let a = if !c.affirmed {
                w
            } else {
                0
            };
            let b = if c.affirmed && mentions_exec(c, "requires_support") {
                2 * w
            } else {
                0
            };
            let r = if c.affirmed && (mentions_exec(c, "is_high") || mentions_exec(c, "fall_risk") || mentions_exec(
                c,
                "collapse_risk",
            )) {
                w
            } else {
                0
            };
            a + b + r
        },
        Metric::DeficitStress => {
            let a = if !c.affirmed {
                let x = if mentions_exec(c, "continuity") {
                    w
                } else {
                    0
                };
                let y = if mentions_exec(c, "contradiction") || mentions_exec(c, "drift") || mentions_exec(c, "noise")
                    || mentions_exec(c, "collapse_risk") || mentions_exec(c, "fall_risk") {
                    w / 2
                } else {
                    0
                };
                w + x + y
            } else {
                0
            };
            let b = if c.affirmed && mentions_exec(c, "requires_support") {
                2 * w
            } else {
                0
            };
            let r = if c.affirmed && (mentions_exec(c, "is_high") || mentions_exec(c, "fall_risk") || mentions_exec(
                c,
                "collapse_risk",
            )) {
                w
            } else {
                0
            };
            a + b + r
        },
        Metric::Support => if c.affirmed && (mentions_exec(c, "holds_shape") || mentions_exec(c, "rejects_drift")
            || mentions_exec(c, "steady_support") || mentions_exec(c, "bounded_change") || mentions_exec(c, "stabil")
            || mentions_exec(c, "bridge") || mentions_exec(c, "stitch") || mentions_exec(c, "bind")) {
            w
        } else {
            0
        },
        Metric::Link => if c.affirmed && c.object.is_some() {
            w
        } else {
            0
        },
        Metric::ContinuityAffirmed => if c.affirmed && mentions_exec(c, "continuity") {
            w
        } else {
            0
        },
        Metric::ContinuityNegated => if !c.affirmed && mentions_exec(c, "continuity") {
            w
        } else {
            0
        },
        Metric::RegionPressure => {
            let a = if !c.affirmed {
                w
            } else {
                0
            };
            let b = if c.affirmed && (mentions_exec(c, "requires_support") || mentions_exec(c, "is_high")
                || mentions_exec(c, "fall_risk") || mentions_exec(c, "collapse_risk") || mentions_exec(
                c,
                "contradiction",
            )) {
                w
            } else {
                0
            };
            a + b
        },
        Metric::BoundaryMentions => if mentions_exec(c, "boundary") || mentions_exec(c, "edge") {
            1
        } else {
            0
        },
        Metric::BridgeMentions => if mentions_exec(c, "bridge") || mentions_exec(c, "support") || mentions_exec(
            c,
            "rebind",
        ) || mentions_exec(c, "stitch") {
            1
        } else {
            0
        },
        Metric::ContradictionPressure => if !c.affirmed || mentions_exec(c, "requires_support") || mentions_exec(
            c,
            "is_high",
        ) || mentions_exec(c, "fall_risk") || mentions_exec(c, "collapse_risk") {
            w
        } else {
            0
        },
        Metric::SupportBinding => if c.affirmed && mentions_exec(c, "requires_support") {
            w
        } else {
            0
        },
    }
}

/// The sum of a metric over the constraints about `subject`.
pub fn subject_total(s: &[SemanticConstraint], subject: &str, m: Metric) -> (r: i64)
    requires
        s@.len() <= MAX_CONSTRAINTS,
    ensures
        r == subject_sum(s@, subject@, m),
{
    let mut acc: i64 = 0;
    let mut i: usize = 0;
    while i < s.len()
        invariant
            s@.len() <= MAX_CONSTRAINTS,
            i <= s@.len(),
            acc == subject_sum(s@.subrange(0, i as int), subject@, m),
        decreases s@.len() - i,
    {
        let ghost t = s@.subrange(0, i + 1);
        proof {
            assert(t.drop_last() =~= s@.subrange(0, i as int));
            lemma_subject_sum_bounds(t, subject@, m);
        }
        if same_subject_text(&s[i].subject, subject) {
            acc = acc + contribution_of(m, &s[i]);
        }
        i = i + 1;
    }
    assert(s@.subrange(0, s@.len() as int) =~= s@);
    acc
}

/// The sum of a metric over all constraints.
pub fn total_of(s: &[SemanticConstraint], m: Metric) -> (r: i64)
    requires
        s@.len() <= MAX_CONSTRAINTS,
    ensures
        r == total_sum(s@, m),
{
    let mut acc: i64 = 0;
    let mut i: usize = 0;
    while i < s.len()
        invariant
            s@.len() <= MAX_CONSTRAINTS,
            i <= s@.len(),
            acc == total_sum(s@.subrange(0, i as int), m),
        decreases s@.len() - i,
    {
        let ghost t = s@.subrange(0, i + 1);
        proof {
            assert(t.drop_last() =~= s@.subrange(0, i as int));
            lemma_total_sum_bounds(t, m);
        }
        acc = acc + contribution_of(m, &s[i]);
        i = i + 1;
    }
    assert(s@.subrange(0, s@.len() as int) =~= s@);
    acc
}

/// The distinct subjects, in text order.
pub fn distinct_subjects(s: &[SemanticConstraint]) -> (r: Vec<String>)
    ensures
        strictly_sorted_texts(views(r@)),
        views(r@).to_set() == subjects_of(s@),
{
    let mut all: Vec<String> = Vec::new();
    let mut i: usize = 0;
    while i < s.len()
        invariant
            i <= s@.len(),
            views(all@) == s@.subrange(0, i as int).map_values(|c: SemanticConstraint| c.subject@),
        decreases s@.len() - i,
    {
        let ghost before = views(all@);
        let y = s[i].subject.clone();
        all.push(y);
        assert(views(all@) =~= before.push(y@));
        assert(s@.subrange(0, i + 1) =~= s@.subrange(0, i as int).push(s@[i as int]));
        i = i + 1;
        assert(views(all@) =~= s@.subrange(0, i as int).map_values(|c: SemanticConstraint| c.subject@));
    }
    assert(s@.subrange(0, s@.len() as int) =~= s@);
    distinct_sorted_texts(&all)
}

fn lex_greater(a: &Vec<i64>, b: &Vec<i64>) -> (r: bool)
    requires
        a@.len() == b@.len(),
    ensures
        r == lex_gt(a@.map_values(|x: i64| x as int), b@.map_values(|x: i64| x as int)),
{
    let ghost av = a@.map_values(|x: i64| x as int);
    let ghost bv = b@.map_values(|x: i64| x as int);
    assert(av.subrange(0, av.len() as int) =~= av);
    assert(bv.subrange(0, bv.len() as int) =~= bv);
    let mut i: usize = 0;
    while i < a.len()
        invariant
            a@.len() == b@.len(),
            av == a@.map_values(|x: i64| x as int),
            bv == b@.map_values(|x: i64| x as int),
            i <= a@.len(),
            lex_gt(av, bv) == lex_gt(av.subrange(i as int, av.len() as int), bv.subrange(i as int, bv.len() as int)),
        decreases a@.len() - i,
    {
        let ghost sa = av.subrange(i as int, av.len() as int);
        let ghost sb = bv.subrange(i as int, bv.len() as int);
        assert(sa[0] == a@[i as int] && sb[0] == b@[i as int]);
        if a[i] != b[i] {
            return a[i] > b[i];
        }
        assert(sa.drop_first() =~= av.subrange(i + 1, av.len() as int));
        assert(sb.drop_first() =~= bv.subrange(i + 1, bv.len() as int));
        i = i + 1;
    }
    false
}

fn same_key(a: &Vec<i64>, b: &Vec<i64>) -> (r: bool)
    requires
        a@.len() == b@.len(),
    ensures
        r == (a@.map_values(|x: i64| x as int) == b@.map_values(|x: i64| x as int)),
{
    let mut i: usize = 0;
    while i < a.len()
        invariant
            a@.len() == b@.len(),
            i <= a@.len(),
            forall|j: int| 0 <= j < i ==> a@[j] == b@[j],
        decreases a@.len() - i,
    {
        if a[i] != b[i] {
            assert(a@.map_values(|x: i64| x as int)[i as int] != b@.map_values(|x: i64| x as int)[i as int]);
            return false;
        }
        i = i + 1;
    }
    assert(a@.map_values(|x: i64| x as int) =~= b@.map_values(|x: i64| x as int));
    true
}

/// The key and eligibility of one subject.
fn key_and_eligibility(s: &[SemanticConstraint], sel: Selector, y: &String, excluded: &str) -> (r: (Vec<i64>, bool))
    requires
        s@.len() <= MAX_CONSTRAINTS,
    ensures
        r.0@.map_values(|x: i64| x as int) == key_of(sel, s@, y@),
        r.1 == eligible(sel, s@, y@, excluded@),
{
    let subject = y.as_str();
    proof {
        lemma_subject_sum_bounds(s@, y@, Metric::Signed);
        lemma_subject_sum_bounds(s@, y@, Metric::Weight);
        lemma_subject_sum_bounds(s@, y@, Metric::Count);
        lemma_subject_sum_bounds(s@, y@, Metric::ExternalStress);
        lemma_subject_sum_bounds(s@, y@, Metric::DominatedStress);
        lemma_subject_sum_bounds(s@, y@, Metric::DeficitStress);
        lemma_subject_sum_bounds(s@, y@, Metric::Support);
        lemma_subject_sum_bounds(s@, y@, Metric::Link);
        lemma_subject_sum_bounds(s@, y@, Metric::ContinuityAffirmed);
        lemma_subject_sum_bounds(s@, y@, Metric::ContinuityNegated);
    }
    let mut key: Vec<i64> = Vec::new();
    let ok: bool;
    match sel {
        Selector::Anchor | Selector::AnchorExcluding | Selector::StableRegion => {
            let coherence = subject_total(s, subject, Metric::Signed);
            key.push(coherence);
            key.push(coherence);
            key.push(subject_total(s, subject, Metric::Weight));
            key.push(subject_total(s, subject, Metric::Count));
            ok = match sel {
                Selector::Anchor => true,
                _ => !same_subject_text(y, excluded),
            };
        },
        Selector::ExternalStress => {
            let stress = subject_total(s, subject, Metric::ExternalStress);
            key.push(stress);
            ok = stress > 0;
        },
        Selector::Dominated => {
            let stress = subject_total(s, subject, Metric::DominatedStress);
            key.push(stress);
            ok = stress > 0;
        },
        Selector::Plateau => {
            let pos = subject_total(s, subject, Metric::ContinuityAffirmed);
            let neg = subject_total(s, subject, Metric::ContinuityNegated);
            let strength = if pos < neg {
                pos
            } else {
                neg
            };
            let imbalance = if pos >= neg {
                pos - neg
            } else {
                neg - pos
            };
            key.push(strength);
            key.push(-imbalance);
            key.push(pos + neg);
            ok = strength > 0 && pos >= neg;
        },
        Selector::Deficit => {
            let stress = subject_total(s, subject, Metric::DeficitStress);
            let support = subject_total(s, subject, Metric::Support);
            let link = subject_total(s, subject, Metric::Link);
            let deficit = stress - support / 2 - link / 2;
            key.push(deficit);
            key.push(stress);
            key.push(-link);
            key.push(-support);
            ok = deficit > 0 && stress > 0;
        },
    }
    assert(key@.map_values(|x: i64| x as int) =~= key_of(sel, s@, y@));
    (key, ok)
}

fn same_subject_text(y: &String, t: &str) -> (r: bool)
    ensures
        r == (y@ == t@),
{
    let n = y.as_str().unicode_len();
    let m = t.unicode_len();
    if n != m {
        return false;
    }
    let lt1 = less_than(y.as_str(), t);
    let lt2 = less_than(t, y.as_str());
    proof {
        if y@ != t@ {
            lemma_text_lt_total(y@, t@);
        } else {
            lemma_text_lt_irreflexive(t@);
        }
    }
    !lt1 && !lt2
}

/// The subject that selector `sel` picks.
pub fn select_subject(s: &[SemanticConstraint], sel: Selector, excluded: &str) -> (r: Option<String>)
    requires
        s@.len() <= MAX_CONSTRAINTS,
    ensures
        match r {
            Some(x) => best(sel, s@, excluded@) == Some(x@),
            None => best(sel, s@, excluded@) is None,
        },
        r is None <==> forall|y: Seq<char>| subjects_of(s@).contains(y) ==> !eligible(sel, s@, y, excluded@),
{
    let subs = distinct_subjects(s);
    let ghost sv = views(subs@);
    let mut best_index: Option<usize> = None;
    let mut best_key: Vec<i64> = Vec::new();
    let mut k: usize = 0;
    while k < subs.len()
        invariant
            s@.len() <= MAX_CONSTRAINTS,
            sv == views(subs@),
            strictly_sorted_texts(sv),
            k <= subs@.len(),
            match best_index {
                None => forall|j: int| 0 <= j < k ==> !eligible(sel, s@, #[trigger] sv[j], excluded@),
                Some(b) => {
                    &&& b < k
                    &&& eligible(sel, s@, sv[b as int], excluded@)
                    &&& best_key@.map_values(|x: i64| x as int) == key_of(sel, s@, sv[b as int])
                    &&& forall|j: int|
                        0 <= j < k && j != b && eligible(sel, s@, #[trigger] sv[j], excluded@) ==> ranks_above(
                            key_of(sel, s@, sv[b as int]),
                            sv[b as int],
                            key_of(sel, s@, sv[j]),
                            sv[j],
                        )
                },
            },
        decreases subs@.len() - k,
    {
        let (key, ok) = key_and_eligibility(s, sel, &subs[k], excluded);
        assert(sv[k as int] == subs@[k as int]@);
        if ok {
            match best_index {
                None => {
                    best_index = Some(k);
                    best_key = key;
                },
                Some(b) => {
                    proof {
                        lemma_key_len(sel, s@, sv[k as int], sv[b as int]);
                        assert(sv[b as int] == subs@[b as int]@);
                    }
                    let beats = lex_greater(&key, &best_key) || (same_key(&key, &best_key) && less_than(
                        subs[k].as_str(),
                        subs[b].as_str(),
                    ));
                    proof {
                        assert(text_lt(sv[b as int], sv[k as int]));
                        lemma_text_lt_irreflexive(sv[k as int]);
                        if beats {
                            assert forall|j: int|
                                0 <= j < k + 1 && j != k && eligible(sel, s@, #[trigger] sv[j], excluded@) implies ranks_above(
                                key_of(sel, s@, sv[k as int]),
                                sv[k as int],
                                key_of(sel, s@, sv[j]),
                                sv[j],
                            ) by {
                                if j != b {
                                    lemma_ranks_above_transitive(
                                        key_of(sel, s@, sv[k as int]),
                                        sv[k as int],
                                        key_of(sel, s@, sv[b as int]),
                                        sv[b as int],
                                        key_of(sel, s@, sv[j]),
                                        sv[j],
                                    );
                                }
                            }
                        } else {
                            lemma_ranks_above_total(
                                key_of(sel, s@, sv[b as int]),
                                sv[b as int],
                                key_of(sel, s@, sv[k as int]),
                                sv[k as int],
                            );
                        }
                    }
                    if beats {
                        best_index = Some(k);
                        best_key = key;
                    }
                },
            }
        }
        k = k + 1;
    }
    proof {
        assert forall|y: Seq<char>| subjects_of(s@).contains(y) implies exists|j: int| 0 <= j < sv.len() && sv[j] == y by {
            assert(sv.to_set().contains(y));
        }
    }
    match best_index {
        None => {
            proof {
                assert forall|y: Seq<char>| subjects_of(s@).contains(y) implies !eligible(sel, s@, y, excluded@) by {
                    let j = choose|j: int| 0 <= j < sv.len() && sv[j] == y;
                }
                if exists|x: Seq<char>| is_best(sel, s@, excluded@, x) {
                    let x = choose|x: Seq<char>| is_best(sel, s@, excluded@, x);
                    assert(subjects_of(s@).contains(x));
                }
            }
            None
        },
        Some(b) => {
            let x = subs[b].clone();
            proof {
                assert(x@ == sv[b as int]);
                assert(sv.to_set().contains(x@));
                assert forall|y: Seq<char>|
                    #![trigger subjects_of(s@).contains(y)]
                    subjects_of(s@).contains(y) && y != x@ && eligible(sel, s@, y, excluded@) implies ranks_above(
                    key_of(sel, s@, x@),
                    x@,
                    key_of(sel, s@, y),
                    y,
                ) by {
                    let j = choose|j: int| 0 <= j < sv.len() && sv[j] == y;
                    assert(j != b);
                }
                assert(is_best(sel, s@, excluded@, x@));
                lemma_best_unique(sel, s@, excluded@, x@);
            }
            Some(x)
        },
    }
}

} // verus!
