//! Geometric cognitive seeds: the geometry of an episode's structural
//! deltas and the semantic contexts that propagated across its frames,
//! signed and hashed for replay.
use vstd::prelude::*;
use crate::text::{bool_text, dec_int, dec_nat, default_hash_str_str_u8, distinct_sorted_texts,
    hex_nat, hex_text, join, join_strings, push_bool, push_i64, push_str, push_u64, push_usize,
    std_hash_of_str_str_u8, strictly_sorted_texts, text, views};

verus! {

/// The readiness hook an episode hands to seed formation.
#[derive(Debug, Clone, PartialEq, Eq)]
pub struct Phase80Phase9IntegrationHook {
    pub episode_id: String,
    pub continuity_weight_percent: u8,
    pub integration_ready: bool,
}

/// The structural summary of an episode.
#[derive(Debug, Clone, PartialEq, Eq)]
pub struct Phase80EpisodeStructuralSummary {
    pub episode_id: String,
    pub frame_count: usize,
    pub transition_count: usize,
    pub propagated_semantic_contexts: Vec<String>,
}

/// One cross-frame structural delta of an episode.
#[derive(Debug, Clone, PartialEq, Eq)]
pub struct Phase80CrossFrameStructuralDelta {
    pub from_frame_id: String,
    pub to_frame_id: String,
    pub parameter_name: String,
    pub raw_structural_delta: i32,
    pub continuity_adjusted_delta: i32,
}

/// A geometric cognitive seed formed from an episode.
#[derive(Debug, Clone, PartialEq, Eq)]
pub struct Phase90GeometricCognitiveSeed {
    pub episode_id: String,
    pub geometry_signature: String,
    pub semantic_anchor_contexts: Vec<String>,
    pub continuity_weight_percent: u8,
    pub total_delta_magnitude: i32,
    pub transition_count: usize,
    pub geometry_well_formed: bool,
    pub seed_content_hash: String,
    pub source_frame_count: usize,
}

// ── model ────────────────────────────────────────────────────────────────────

pub open spec fn abs_i(a: int) -> int {
    if a < 0 {
        -a
    } else {
        a
    }
}

/// The total magnitude of the first `n` continuity-adjusted deltas.
pub open spec fn delta_magnitude(ds: Seq<Phase80CrossFrameStructuralDelta>, n: int) -> int
    decreases n,
{
    if n <= 0 {
        0
    } else {
        delta_magnitude(ds, n - 1) + abs_i(ds[n - 1].continuity_adjusted_delta as int)
    }
}

/// The line recording delta `idx`.
pub open spec fn delta_line(idx: int, d: Phase80CrossFrameStructuralDelta) -> Seq<char> {
    dec_int(idx) + ":"@ + d.from_frame_id@ + "->"@ + d.to_frame_id@ + ":"@ + d.parameter_name@
        + ":"@ + dec_int(d.raw_structural_delta as int) + ":"@ + dec_int(
        d.continuity_adjusted_delta as int,
    )
}

pub open spec fn delta_lines(ds: Seq<Phase80CrossFrameStructuralDelta>) -> Seq<Seq<char>> {
    Seq::new(ds.len(), |i: int| delta_line(i, ds[i]))
}

/// The geometry signature of a seed.
pub open spec fn geometry_sig(
    hook: Phase80Phase9IntegrationHook,
    anchors: Seq<Seq<char>>,
    total: int,
    ds: Seq<Phase80CrossFrameStructuralDelta>,
) -> Seq<char> {
    "episode="@ + hook.episode_id@ + "|contexts="@ + join(anchors, ","@) + "|weight="@ + dec_nat(
        hook.continuity_weight_percent as nat,
    ) + "|total_delta="@ + dec_int(total) + "|deltas="@ + join(delta_lines(ds), "|"@)
}

/// `seed` is the seed formed from `hook`, `summary` and `ds`.
pub open spec fn is_seed_of(
    seed: Phase90GeometricCognitiveSeed,
    hook: Phase80Phase9IntegrationHook,
    summary: Phase80EpisodeStructuralSummary,
    ds: Seq<Phase80CrossFrameStructuralDelta>,
) -> bool {
    let anchors = views(seed.semantic_anchor_contexts@);
    let total = delta_magnitude(ds, ds.len() as int);
    let sig = geometry_sig(hook, anchors, total, ds);
    &&& strictly_sorted_texts(anchors)
    &&& anchors.to_set() == views(summary.propagated_semantic_contexts@).to_set()
    &&& seed.episode_id@ == hook.episode_id@
    &&& seed.geometry_signature@ == sig
    &&& seed.continuity_weight_percent == hook.continuity_weight_percent
    &&& seed.total_delta_magnitude == total
    &&& seed.transition_count == ds.len()
    &&& seed.geometry_well_formed == (hook.integration_ready && ds.len() > 0 && ds.len()
        == summary.transition_count && anchors.len() > 0)
    &&& seed.seed_content_hash@ == hex_nat(
        std_hash_of_str_str_u8(sig, summary.episode_id@, hook.continuity_weight_percent) as nat,
    )
    &&& seed.source_frame_count == summary.frame_count
}

/// The magnitudes of the deltas can be summed in `i32`.
pub open spec fn deltas_fit(ds: Seq<Phase80CrossFrameStructuralDelta>) -> bool {
    &&& forall|k: int| 0 <= k < ds.len() ==> (#[trigger] ds[k]).continuity_adjusted_delta != i32::MIN
    &&& delta_magnitude(ds, ds.len() as int) <= i32::MAX
}

/// The telemetry line published for a seed.
pub open spec fn seed_line(seed: Phase90GeometricCognitiveSeed) -> Seq<char> {
    "episode_id="@ + seed.episode_id@ + ":geometry_signature="@ + seed.geometry_signature@
        + ":semantic_anchors="@ + join(views(seed.semantic_anchor_contexts@), ","@)
        + ":continuity_weight="@ + dec_nat(seed.continuity_weight_percent as nat)
        + ":total_delta="@ + dec_int(seed.total_delta_magnitude as int) + ":transition_count="@
        + dec_nat(seed.transition_count as nat) + ":well_formed="@ + bool_text(
        seed.geometry_well_formed,
    ) + ":content_hash="@ + seed.seed_content_hash@ + ":frame_count="@ + dec_nat(
        seed.source_frame_count as nat,
    )
}

proof fn lemma_magnitude_monotone(ds: Seq<Phase80CrossFrameStructuralDelta>, a: int, b: int)
    requires
        0 <= a <= b <= ds.len(),
    ensures
        0 <= delta_magnitude(ds, a) <= delta_magnitude(ds, b),
    decreases b - a,
{
    if a < b {
        lemma_magnitude_monotone(ds, a, b - 1);
    } else {
        lemma_magnitude_nonneg(ds, a);
    }
}

proof fn lemma_magnitude_nonneg(ds: Seq<Phase80CrossFrameStructuralDelta>, a: int)
    requires
        0 <= a <= ds.len(),
    ensures
        0 <= delta_magnitude(ds, a),
    decreases a,
{
    if a > 0 {
        lemma_magnitude_nonneg(ds, a - 1);
    }
}

// ── kernel ───────────────────────────────────────────────────────────────────

/// Forms the geometric seed of an episode from its readiness hook, its
/// summary and its cross-frame deltas.
pub fn phase90_form_geometry_seed_from_integration_hook(
    hook: &Phase80Phase9IntegrationHook,
    summary: &Phase80EpisodeStructuralSummary,
    deltas: &[Phase80CrossFrameStructuralDelta],
) -> (seed: Phase90GeometricCognitiveSeed)
    requires
        deltas_fit(deltas@),
    ensures
        is_seed_of(seed, *hook, *summary, deltas@),
{
    let expected_delta_count = summary.transition_count;
    let actual_delta_count = deltas.len();
    let cardinality_valid = actual_delta_count == expected_delta_count;
    let semantic_anchor_contexts = distinct_sorted_texts(&summary.propagated_semantic_contexts);

    let mut total_delta_magnitude: i32 = 0;
    let mut lines: Vec<String> = Vec::new();
    let mut k: usize = 0;
    while k < deltas.len()
        invariant
            k <= deltas@.len(),
            deltas_fit(deltas@),
            total_delta_magnitude == delta_magnitude(deltas@, k as int),
            lines@.len() == k,
            forall|m: int| 0 <= m < k ==> #[trigger] lines@[m]@ == delta_line(m, deltas@[m]),
        decreases deltas@.len() - k,
    {
        let d = &deltas[k];
        proof {
            lemma_magnitude_monotone(deltas@, k + 1, deltas@.len() as int);
        }
        let magnitude = if d.continuity_adjusted_delta < 0 {
            -d.continuity_adjusted_delta
        } else {
            d.continuity_adjusted_delta
        };
        total_delta_magnitude = total_delta_magnitude + magnitude;
        let mut line = text("");
        push_usize(&mut line, k);
        push_str(&mut line, ":");
        push_str(&mut line, d.from_frame_id.as_str());
        push_str(&mut line, "->");
        push_str(&mut line, d.to_frame_id.as_str());
        push_str(&mut line, ":");
        push_str(&mut line, d.parameter_name.as_str());
        push_str(&mut line, ":");
        push_i64(&mut line, d.raw_structural_delta as i64);
        push_str(&mut line, ":");
        push_i64(&mut line, d.continuity_adjusted_delta as i64);
        proof {
            reveal_strlit("");
            assert(line@ =~= delta_line(k as int, deltas@[k as int]));
        }
        lines.push(line);
        k = k + 1;
    }
    assert(views(lines@) =~= delta_lines(deltas@));
    let mut signature = text("episode=");
    push_str(&mut signature, hook.episode_id.as_str());
    push_str(&mut signature, "|contexts=");
    let contexts = join_strings(&semantic_anchor_contexts, ",");
    push_str(&mut signature, contexts.as_str());
    push_str(&mut signature, "|weight=");
    push_u64(&mut signature, hook.continuity_weight_percent as u64);
    push_str(&mut signature, "|total_delta=");
    push_i64(&mut signature, total_delta_magnitude as i64);
    push_str(&mut signature, "|deltas=");
    let joined = join_strings(&lines, "|");
    push_str(&mut signature, joined.as_str());
    let h = default_hash_str_str_u8(
        signature.as_str(),
        summary.episode_id.as_str(),
        hook.continuity_weight_percent,
    );
    let seed_content_hash = hex_text(h);
    let geometry_well_formed = hook.integration_ready && deltas.len() > 0 && cardinality_valid
        && semantic_anchor_contexts.len() > 0;
    Phase90GeometricCognitiveSeed {
        episode_id: hook.episode_id.clone(),
        geometry_signature: signature,
        semantic_anchor_contexts,
        continuity_weight_percent: hook.continuity_weight_percent,
        total_delta_magnitude,
        transition_count: deltas.len(),
        geometry_well_formed,
        seed_content_hash,
        source_frame_count: summary.frame_count,
    }
}

/// The telemetry line for a seed.
pub fn phase90_seed_formation_telemetry_line(seed: &Phase90GeometricCognitiveSeed) -> (line: String)
    ensures
        line@ == seed_line(*seed),
{
    let mut line = text("episode_id=");
    push_str(&mut line, seed.episode_id.as_str());
    push_str(&mut line, ":geometry_signature=");
    push_str(&mut line, seed.geometry_signature.as_str());
    push_str(&mut line, ":semantic_anchors=");
    let anchors = join_strings(&seed.semantic_anchor_contexts, ",");
    push_str(&mut line, anchors.as_str());
    push_str(&mut line, ":continuity_weight=");
    push_u64(&mut line, seed.continuity_weight_percent as u64);
    push_str(&mut line, ":total_delta=");
    push_i64(&mut line, seed.total_delta_magnitude as i64);
    push_str(&mut line, ":transition_count=");
    push_usize(&mut line, seed.transition_count);
    push_str(&mut line, ":well_formed=");
    push_bool(&mut line, seed.geometry_well_formed);
    push_str(&mut line, ":content_hash=");
    push_str(&mut line, seed.seed_content_hash.as_str());
    push_str(&mut line, ":frame_count=");
    push_usize(&mut line, seed.source_frame_count);
    line
}

} // verus!
