//! Arbitration between competing inferences: scored candidates, a
//! meta-operator bias per semantic label, and a deterministic winner.
use vstd::prelude::*;
use crate::cognition::phase17_semantic_measurement_operators::{label_name, Phase17SemanticLabel};
use crate::cognition::phase18_resonance_inference::{
    inference_error, phase18_validate_inference_trajectory_invariants, Phase18InferenceTrajectory,
};
use crate::text::{bool_text, dec_int, dec_nat, push_bool, default_hash_str, hash16, hash_text, is_blank, join,
    join_strings, less_than, push_i64, push_str, push_u64_pad4, push_usize, same_text,
    std_hash_of_str, text, text_lt, views, zero_pad};

verus! {

#[derive(Debug, Clone, Copy, PartialEq, Eq, Structural)]
pub enum Phase19MetaOperator {
    StabilityFirst,
    InferenceFirst,
    SemanticCoherenceFirst,
    ConflictResolver,
}

#[derive(Debug, Clone, PartialEq, Eq)]
pub struct Phase19ArbitrationCandidate {
    pub candidate_id: String,
    pub inference_signature: String,
    pub resonance_signature: String,
    pub semantic_label: Phase17SemanticLabel,
    pub base_score: i32,
    pub adjusted_score: i32,
    pub candidate_signature: String,
}

#[derive(Debug, Clone, PartialEq, Eq)]
pub struct Phase19ArbitrationField {
    pub meta_operator: Phase19MetaOperator,
    pub candidates: Vec<Phase19ArbitrationCandidate>,
    pub winning_index: usize,
    pub winning_signature: String,
    pub arbitration_signature: String,
    pub field_well_formed: bool,
}

#[derive(Debug, Clone, PartialEq, Eq)]
pub struct Phase19ArbitrationDecision {
    pub selected_candidate_id: String,
    pub selected_candidate_signature: String,
    pub selected_semantic_label: Phase17SemanticLabel,
    pub selected_score: i32,
    pub resolution_reason: String,
    pub decision_signature: String,
}

// ── model ────────────────────────────────────────────────────────────────────

pub open spec fn meta_name(m: Phase19MetaOperator) -> Seq<char> {
    match m {
        Phase19MetaOperator::StabilityFirst => "StabilityFirst"@,
        Phase19MetaOperator::InferenceFirst => "InferenceFirst"@,
        Phase19MetaOperator::SemanticCoherenceFirst => "SemanticCoherenceFirst"@,
        Phase19MetaOperator::ConflictResolver => "ConflictResolver"@,
    }
}

/// The score bias that a meta-operator gives a semantic label.
pub open spec fn meta_bias(meta: Phase19MetaOperator, label: Phase17SemanticLabel) -> int {
    match meta {
        Phase19MetaOperator::StabilityFirst => match label {
            Phase17SemanticLabel::Alignment => 10,
            Phase17SemanticLabel::Reinforcement => 8,
            Phase17SemanticLabel::Contrast => 2,
            Phase17SemanticLabel::Conflict => -4,
            Phase17SemanticLabel::EntanglingInfluence => 1,
        },
        Phase19MetaOperator::InferenceFirst => 6,
        Phase19MetaOperator::SemanticCoherenceFirst => match label {
            Phase17SemanticLabel::Reinforcement => 10,
            Phase17SemanticLabel::Alignment => 7,
            Phase17SemanticLabel::EntanglingInfluence => 4,
            Phase17SemanticLabel::Contrast => 1,
            Phase17SemanticLabel::Conflict => -6,
        },
        Phase19MetaOperator::ConflictResolver => match label {
            Phase17SemanticLabel::Conflict => -10,
            Phase17SemanticLabel::Contrast => 1,
            Phase17SemanticLabel::Alignment => 6,
            Phase17SemanticLabel::Reinforcement => 8,
            Phase17SemanticLabel::EntanglingInfluence => 3,
        },
    }
}

/// The weight (1..=101) that a signature carries under a salt.
pub open spec fn weight19(signature: Seq<char>, salt: Seq<char>) -> int {
    (std_hash_of_str(salt + "|"@ + signature) % 101) as int + 1
}

pub open spec fn candidate_sig_input(
    id: Seq<char>,
    inf: Seq<char>,
    res: Seq<char>,
    label: Phase17SemanticLabel,
    base: int,
    adj: int,
) -> Seq<char> {
    "id="@ + id + "|inf="@ + inf + "|res="@ + res + "|label="@ + label_name(label) + "|base="@
        + dec_int(base) + "|adj="@ + dec_int(adj)
}

/// `c` is the candidate built from an inference under `id`.
pub open spec fn is_candidate_of(
    c: Phase19ArbitrationCandidate,
    id: Seq<char>,
    inference: Phase18InferenceTrajectory,
) -> bool {
    let base = weight19(inference.inference_signature@, "inference"@) + weight19(
        inference.resonance_signature@,
        "resonance"@,
    );
    &&& c.candidate_id@ == id
    &&& c.inference_signature@ == inference.inference_signature@
    &&& c.resonance_signature@ == inference.resonance_signature@
    &&& c.semantic_label == inference.final_semantic_label
    &&& c.base_score == base
    &&& c.adjusted_score == base
    &&& c.candidate_signature@ == hash16(
        candidate_sig_input(
            id,
            inference.inference_signature@,
            inference.resonance_signature@,
            inference.final_semantic_label,
            base,
            base,
        ),
    )
}

/// `c` is `orig` re-scored under a meta-operator.
pub open spec fn is_adjusted(
    c: Phase19ArbitrationCandidate,
    orig: Phase19ArbitrationCandidate,
    meta: Phase19MetaOperator,
) -> bool {
    let adj = orig.base_score + meta_bias(meta, orig.semantic_label);
    &&& c.candidate_id@ == orig.candidate_id@
    &&& c.inference_signature@ == orig.inference_signature@
    &&& c.resonance_signature@ == orig.resonance_signature@
    &&& c.semantic_label == orig.semantic_label
    &&& c.base_score == orig.base_score
    &&& c.adjusted_score == adj
    &&& c.candidate_signature@ == hash16(
        candidate_sig_input(
            orig.candidate_id@,
            orig.inference_signature@,
            orig.resonance_signature@,
            orig.semantic_label,
            orig.base_score as int,
            adj,
        ) + "|meta="@ + meta_name(meta),
    )
}

/// Candidate `a` beats candidate `b`: higher adjusted score, ties to the
/// smaller candidate signature.
pub open spec fn beats(a: Phase19ArbitrationCandidate, b: Phase19ArbitrationCandidate) -> bool {
    a.adjusted_score > b.adjusted_score || (a.adjusted_score == b.adjusted_score && text_lt(
        a.candidate_signature@,
        b.candidate_signature@,
    ))
}

/// The winner among the first `n` candidates: a later candidate takes over
/// only when it beats the current winner.
pub open spec fn winner_index(cands: Seq<Phase19ArbitrationCandidate>, n: nat) -> nat
    decreases n,
{
    if n <= 1 {
        0
    } else {
        let w = winner_index(cands, (n - 1) as nat);
        if beats(cands[n - 1], cands[w as int]) {
            (n - 1) as nat
        } else {
            w
        }
    }
}

pub open spec fn cand_sigs(cands: Seq<Phase19ArbitrationCandidate>) -> Seq<Seq<char>> {
    cands.map_values(|c: Phase19ArbitrationCandidate| c.candidate_signature@)
}

/// Candidates `0..=k` all carry an id and an inference signature.
pub open spec fn prefix_ok(cands: Seq<Phase19ArbitrationCandidate>, k: int) -> bool {
    forall|j: int|
        0 <= j <= k ==> (#[trigger] cands[j]).candidate_id@.len() > 0
            && cands[j].inference_signature@.len() > 0
}

/// The first candidate, from `i` on, lacking an id or an inference signature.
pub open spec fn first_bad_candidate(cands: Seq<Phase19ArbitrationCandidate>, i: int) -> Option<
    Seq<char>,
>
    decreases cands.len() - i,
{
    if i < 0 || i >= cands.len() {
        None
    } else if cands[i].candidate_id@.len() == 0 {
        Some("phase19_candidate_id_empty"@)
    } else if cands[i].inference_signature@.len() == 0 {
        Some("phase19_inference_signature_empty"@)
    } else {
        first_bad_candidate(cands, i + 1)
    }
}

/// The first candidate of a field, from `i` on, lacking an id or a signature.
pub open spec fn first_bad_field_candidate(cands: Seq<Phase19ArbitrationCandidate>, i: int) -> Option<
    Seq<char>,
>
    decreases cands.len() - i,
{
    if i < 0 || i >= cands.len() {
        None
    } else if cands[i].candidate_id@.len() == 0 {
        Some("phase19_candidate_id_empty"@)
    } else if cands[i].candidate_signature@.len() == 0 {
        Some("phase19_candidate_signature_empty"@)
    } else {
        first_bad_field_candidate(cands, i + 1)
    }
}

/// The verdict of `phase19_validate_arbitration_field_invariants`.
pub open spec fn arbitration_field_error(f: Phase19ArbitrationField) -> Option<Seq<char>> {
    if !f.field_well_formed {
        Some("phase19_field_marked_malformed"@)
    } else if f.candidates@.len() == 0 {
        Some("phase19_candidates_empty"@)
    } else if f.winning_index >= f.candidates@.len() {
        Some("phase19_winning_index_out_of_bounds"@)
    } else if f.winning_signature@.len() == 0 {
        Some("phase19_winning_signature_empty"@)
    } else if f.arbitration_signature@.len() == 0 {
        Some("phase19_arbitration_signature_empty"@)
    } else if f.candidates@[f.winning_index as int].candidate_signature@ != f.winning_signature@ {
        Some("phase19_winning_signature_mismatch"@)
    } else {
        first_bad_field_candidate(f.candidates@, 0)
    }
}

/// The verdict of `phase19_validate_arbitration_decision_invariants`.
pub open spec fn decision_error(d: Phase19ArbitrationDecision) -> Option<Seq<char>> {
    if d.selected_candidate_id@.len() == 0 {
        Some("phase19_selected_candidate_id_empty"@)
    } else if d.selected_candidate_signature@.len() == 0 {
        Some("phase19_selected_candidate_signature_empty"@)
    } else if d.decision_signature@.len() == 0 {
        Some("phase19_decision_signature_empty"@)
    } else if d.resolution_reason@.len() == 0 {
        Some("phase19_resolution_reason_empty"@)
    } else {
        None
    }
}

/// The field built from `cands` under `meta`.
pub open spec fn is_arbitration_field_of(
    f: Phase19ArbitrationField,
    cands: Seq<Phase19ArbitrationCandidate>,
    meta: Phase19MetaOperator,
) -> bool {
    let adjusted = f.candidates@;
    let w = winner_index(adjusted, adjusted.len());
    &&& f.meta_operator == meta
    &&& adjusted.len() == cands.len()
    &&& forall|k: int| 0 <= k < cands.len() ==> is_adjusted(#[trigger] adjusted[k], cands[k], meta)
    &&& f.winning_index == w
    &&& f.winning_signature@ == adjusted[w as int].candidate_signature@
    &&& f.arbitration_signature@ == hash16(
        "meta="@ + meta_name(meta) + "|winner="@ + f.winning_signature@ + "|candidates=["@ + join(
            cand_sigs(adjusted),
            "|"@,
        ) + "]"@,
    )
    &&& f.field_well_formed
}

/// The reason text recorded with a decision.
pub open spec fn reason_text(meta: Phase19MetaOperator, idx: int) -> Seq<char> {
    "meta="@ + meta_name(meta) + "|selected_by=max_adjusted_score|winner_index="@ + dec_int(idx)
}

/// The decision that `phase19_select_winner` derives from a field.
pub open spec fn is_decision_of(d: Phase19ArbitrationDecision, f: Phase19ArbitrationField) -> bool {
    let w = f.candidates@[f.winning_index as int];
    let reason = reason_text(f.meta_operator, f.winning_index as int);
    &&& d.selected_candidate_id@ == w.candidate_id@
    &&& d.selected_candidate_signature@ == w.candidate_signature@
    &&& d.selected_semantic_label == w.semantic_label
    &&& d.selected_score == w.adjusted_score
    &&& d.resolution_reason@ == reason
    &&& d.decision_signature@ == hash16(
        "arb="@ + f.arbitration_signature@ + "|winner="@ + w.candidate_signature@ + "|reason="@
            + reason,
    )
}

/// The id of the `i`-th candidate of an inference set.
pub open spec fn candidate_id(i: int) -> Seq<char> {
    "cand_"@ + zero_pad(dec_nat(i as nat), 4)
}

// ── kernel ───────────────────────────────────────────────────────────────────

fn phase19_meta_name(m: Phase19MetaOperator) -> (s: &'static str)
    ensures
        s@ == meta_name(m),
{
    match m {
        Phase19MetaOperator::StabilityFirst => "StabilityFirst",
        Phase19MetaOperator::InferenceFirst => "InferenceFirst",
        Phase19MetaOperator::SemanticCoherenceFirst => "SemanticCoherenceFirst",
        Phase19MetaOperator::ConflictResolver => "ConflictResolver",
    }
}

fn phase19_label_name(l: Phase17SemanticLabel) -> (s: &'static str)
    ensures
        s@ == label_name(l),
{
    match l {
        Phase17SemanticLabel::Alignment => "Alignment",
        Phase17SemanticLabel::Contrast => "Contrast",
        Phase17SemanticLabel::Reinforcement => "Reinforcement",
        Phase17SemanticLabel::Conflict => "Conflict",
        Phase17SemanticLabel::EntanglingInfluence => "EntanglingInfluence",
    }
}

fn phase19_meta_bias(meta: Phase19MetaOperator, label: Phase17SemanticLabel) -> (b: i32)
    ensures
        b == meta_bias(meta, label),
        -10 <= b <= 10,
{
    match meta {
        Phase19MetaOperator::StabilityFirst => match label {
            Phase17SemanticLabel::Alignment => 10,
            Phase17SemanticLabel::Reinforcement => 8,
            Phase17SemanticLabel::Contrast => 2,
            Phase17SemanticLabel::Conflict => -4,
            Phase17SemanticLabel::EntanglingInfluence => 1,
        },
        Phase19MetaOperator::InferenceFirst => 6,
        Phase19MetaOperator::SemanticCoherenceFirst => match label {
            Phase17SemanticLabel::Reinforcement => 10,
            Phase17SemanticLabel::Alignment => 7,
            Phase17SemanticLabel::EntanglingInfluence => 4,
            Phase17SemanticLabel::Contrast => 1,
            Phase17SemanticLabel::Conflict => -6,
        },
        Phase19MetaOperator::ConflictResolver => match label {
            Phase17SemanticLabel::Conflict => -10,
            Phase17SemanticLabel::Contrast => 1,
            Phase17SemanticLabel::Alignment => 6,
            Phase17SemanticLabel::Reinforcement => 8,
            Phase17SemanticLabel::EntanglingInfluence => 3,
        },
    }
}

fn phase19_weight(signature: &str, salt: &str) -> (w: i32)
    ensures
        w == weight19(signature@, salt@),
        1 <= w <= 101,
{
    let mut input = text(salt);
    push_str(&mut input, "|");
    push_str(&mut input, signature);
    let h = default_hash_str(input.as_str());
    ((h % 101) as i32) + 1
}

fn phase19_candidate_sig_input(
    id: &str,
    inf: &str,
    res: &str,
    label: Phase17SemanticLabel,
    base: i32,
    adj: i32,
) -> (s: String)
    ensures
        s@ == candidate_sig_input(id@, inf@, res@, label, base as int, adj as int),
{
    let mut s = text("id=");
    push_str(&mut s, id);
    push_str(&mut s, "|inf=");
    push_str(&mut s, inf);
    push_str(&mut s, "|res=");
    push_str(&mut s, res);
    push_str(&mut s, "|label=");
    push_str(&mut s, phase19_label_name(label));
    push_str(&mut s, "|base=");
    push_i64(&mut s, base as i64);
    push_str(&mut s, "|adj=");
    push_i64(&mut s, adj as i64);
    s
}

/// Scores an inference as an arbitration candidate.
pub fn phase19_candidate_from_inference(
    candidate_id: &str,
    inference: &Phase18InferenceTrajectory,
) -> (r: Result<Phase19ArbitrationCandidate, String>)
    ensures
        match r {
            Ok(c) => candidate_id@.len() > 0 && inference_error(*inference) is None
                && is_candidate_of(c, candidate_id@, *inference) && 2 <= c.base_score <= 202,
            Err(e) => if candidate_id@.len() == 0 {
                e@ == "phase19_candidate_id_empty"@
            } else {
                inference_error(*inference) == Some(e@)
            },
        },
{
    if candidate_id.is_empty() {
        return Err(text("phase19_candidate_id_empty"));
    }
    match phase18_validate_inference_trajectory_invariants(inference) {
        Ok(_) => {},
        Err(e) => return Err(e),
    }
    let base_score = phase19_weight(inference.inference_signature.as_str(), "inference")
        + phase19_weight(inference.resonance_signature.as_str(), "resonance");
    let adjusted_score = base_score;
    let input = phase19_candidate_sig_input(
        candidate_id,
        inference.inference_signature.as_str(),
        inference.resonance_signature.as_str(),
        inference.final_semantic_label,
        base_score,
        adjusted_score,
    );
    let candidate_signature = hash_text(input.as_str());
    Ok(
        Phase19ArbitrationCandidate {
            candidate_id: text(candidate_id),
            inference_signature: inference.inference_signature.clone(),
            resonance_signature: inference.resonance_signature.clone(),
            semantic_label: inference.final_semantic_label,
            base_score,
            adjusted_score,
            candidate_signature,
        },
    )
}

/// Re-scores candidates under a meta-operator and picks the winner.
pub fn phase19_build_arbitration_field(
    candidates: &[Phase19ArbitrationCandidate],
    meta_operator: Phase19MetaOperator,
) -> (r: Result<Phase19ArbitrationField, String>)
    requires
        forall|k: int|
            0 <= k < candidates@.len() && prefix_ok(candidates@, k) ==> i32::MIN <= (
            #[trigger] candidates@[k]).base_score + meta_bias(
                meta_operator,
                candidates@[k].semantic_label,
            ) <= i32::MAX,
    ensures
        match r {
            Ok(f) => candidates@.len() > 0 && first_bad_candidate(candidates@, 0) is None
                && is_arbitration_field_of(f, candidates@, meta_operator),
            Err(e) => if candidates@.len() == 0 {
                e@ == "phase19_candidates_empty"@
            } else {
                first_bad_candidate(candidates@, 0) == Some(e@)
            },
        },
{
    if candidates.len() == 0 {
        return Err(text("phase19_candidates_empty"));
    }
    let mut adjusted: Vec<Phase19ArbitrationCandidate> = Vec::new();
    let mut i: usize = 0;
    while i < candidates.len()
        invariant
            i <= candidates@.len(),
            first_bad_candidate(candidates@, 0) == first_bad_candidate(candidates@, i as int),
            i > 0 ==> prefix_ok(candidates@, i - 1),
            adjusted@.len() == i,
            forall|k: int|
                0 <= k < candidates@.len() && prefix_ok(candidates@, k) ==> i32::MIN <= (
                #[trigger] candidates@[k]).base_score + meta_bias(
                    meta_operator,
                    candidates@[k].semantic_label,
                ) <= i32::MAX,
            forall|k: int|
                0 <= k < i ==> is_adjusted(#[trigger] adjusted@[k], candidates@[k], meta_operator),
        decreases candidates@.len() - i,
    {
        let candidate = &candidates[i];
        if is_blank(&candidate.candidate_id) {
            return Err(text("phase19_candidate_id_empty"));
        }
        if is_blank(&candidate.inference_signature) {
            return Err(text("phase19_inference_signature_empty"));
        }
        assert(prefix_ok(candidates@, i as int));
        let bias = phase19_meta_bias(meta_operator, candidate.semantic_label);
        let adjusted_score = candidate.base_score + bias;
        let mut input = phase19_candidate_sig_input(
            candidate.candidate_id.as_str(),
            candidate.inference_signature.as_str(),
            candidate.resonance_signature.as_str(),
            candidate.semantic_label,
            candidate.base_score,
            adjusted_score,
        );
        push_str(&mut input, "|meta=");
        push_str(&mut input, phase19_meta_name(meta_operator));
        let candidate_signature = hash_text(input.as_str());
        adjusted.push(
            Phase19ArbitrationCandidate {
                candidate_id: candidate.candidate_id.clone(),
                inference_signature: candidate.inference_signature.clone(),
                resonance_signature: candidate.resonance_signature.clone(),
                semantic_label: candidate.semantic_label,
                base_score: candidate.base_score,
                adjusted_score,
                candidate_signature,
            },
        );
        i = i + 1;
    }
    let n = adjusted.len();
    let mut winning_index: usize = 0;
    let mut j: usize = 1;
    while j < n
        invariant
            n == adjusted@.len(),
            1 <= j <= n,
            winning_index == winner_index(adjusted@, j as nat),
            winning_index < j,
        decreases n - j,
    {
        let lhs = &adjusted[j];
        let rhs = &adjusted[winning_index];
        if lhs.adjusted_score > rhs.adjusted_score || (lhs.adjusted_score == rhs.adjusted_score
            && less_than(lhs.candidate_signature.as_str(), rhs.candidate_signature.as_str())) {
            winning_index = j;
        }
        j = j + 1;
    }
    let winning_signature = adjusted[winning_index].candidate_signature.clone();
    let mut sigs: Vec<String> = Vec::new();
    let mut k: usize = 0;
    while k < n
        invariant
            n == adjusted@.len(),
            k <= n,
            sigs@.len() == k,
            forall|m: int| 0 <= m < k ==> #[trigger] sigs@[m]@ == adjusted@[m].candidate_signature@,
        decreases n - k,
    {
        sigs.push(adjusted[k].candidate_signature.clone());
        k = k + 1;
    }
    assert(views(sigs@) =~= cand_sigs(adjusted@));
    let joined = join_strings(&sigs, "|");
    let mut input = text("meta=");
    push_str(&mut input, phase19_meta_name(meta_operator));
    push_str(&mut input, "|winner=");
    push_str(&mut input, winning_signature.as_str());
    push_str(&mut input, "|candidates=[");
    push_str(&mut input, joined.as_str());
    push_str(&mut input, "]");
    let arbitration_signature = hash_text(input.as_str());
    Ok(
        Phase19ArbitrationField {
            meta_operator,
            candidates: adjusted,
            winning_index,
            winning_signature,
            arbitration_signature,
            field_well_formed: true,
        },
    )
}

/// Turns a governed arbitration field into a decision for its winner.
pub fn phase19_select_winner(field: &Phase19ArbitrationField) -> (r: Result<
    Phase19ArbitrationDecision,
    String,
>)
    ensures
        match r {
            Ok(d) => arbitration_field_error(*field) is None && is_decision_of(d, *field),
            Err(e) => arbitration_field_error(*field) == Some(e@),
        },
{
    match phase19_validate_arbitration_field_invariants(field) {
        Ok(_) => {},
        Err(e) => return Err(e),
    }
    let winner = &field.candidates[field.winning_index];
    let mut reason = text("meta=");
    push_str(&mut reason, phase19_meta_name(field.meta_operator));
    push_str(&mut reason, "|selected_by=max_adjusted_score|winner_index=");
    push_usize(&mut reason, field.winning_index);
    let mut input = text("arb=");
    push_str(&mut input, field.arbitration_signature.as_str());
    push_str(&mut input, "|winner=");
    push_str(&mut input, winner.candidate_signature.as_str());
    push_str(&mut input, "|reason=");
    push_str(&mut input, reason.as_str());
    let decision_signature = hash_text(input.as_str());
    Ok(
        Phase19ArbitrationDecision {
            selected_candidate_id: winner.candidate_id.clone(),
            selected_candidate_signature: winner.candidate_signature.clone(),
            selected_semantic_label: winner.semantic_label,
            selected_score: winner.adjusted_score,
            resolution_reason: reason,
            decision_signature,
        },
    )
}

/// The first inference, from `i` on, that fails its invariants.
pub open spec fn first_bad_inference(infs: Seq<Phase18InferenceTrajectory>, i: int) -> Option<
    Seq<char>,
>
    decreases infs.len() - i,
{
    if i < 0 || i >= infs.len() {
        None
    } else if inference_error(infs[i]) is Some {
        inference_error(infs[i])
    } else {
        first_bad_inference(infs, i + 1)
    }
}

/// `f` and `d` are the arbitration field and decision for `infs`, each
/// scored as candidate `cand_NNNN`, under `meta`.
pub open spec fn is_resolution_of(
    f: Phase19ArbitrationField,
    d: Phase19ArbitrationDecision,
    infs: Seq<Phase18InferenceTrajectory>,
    meta: Phase19MetaOperator,
) -> bool {
    &&& f.candidates@.len() == infs.len()
    &&& exists|cands: Seq<Phase19ArbitrationCandidate>|
        {
            &&& cands.len() == infs.len()
            &&& forall|k: int|
                0 <= k < cands.len() ==> is_candidate_of(#[trigger] cands[k], candidate_id(k), infs[k])
            &&& is_arbitration_field_of(f, cands, meta)
        }
    &&& arbitration_field_error(f) is None
    &&& is_decision_of(d, f)
}

/// Scores every inference as candidate `cand_NNNN`, arbitrates under
/// `meta_operator` and decides for the winner.
pub fn phase19_resolve_inference_conflict(
    inferences: &[Phase18InferenceTrajectory],
    meta_operator: Phase19MetaOperator,
) -> (r: Result<(Phase19ArbitrationField, Phase19ArbitrationDecision), String>)
    ensures
        match r {
            Ok((f, d)) => {
                &&& inferences@.len() > 0
                &&& first_bad_inference(inferences@, 0) is None
                &&& is_resolution_of(f, d, inferences@, meta_operator)
            },
            Err(e) => if inferences@.len() == 0 {
                e@ == "phase19_inferences_empty"@
            } else {
                first_bad_inference(inferences@, 0) == Some(e@)
            },
        },
{
    if inferences.len() == 0 {
        return Err(text("phase19_inferences_empty"));
    }
    let mut candidates: Vec<Phase19ArbitrationCandidate> = Vec::new();
    let mut i: usize = 0;
    while i < inferences.len()
        invariant
            i <= inferences@.len(),
            first_bad_inference(inferences@, 0) == first_bad_inference(inferences@, i as int),
            candidates@.len() == i,
            forall|k: int|
                0 <= k < i ==> is_candidate_of(#[trigger] candidates@[k], candidate_id(k), inferences@[k])
                    && 2 <= candidates@[k].base_score <= 202 && candidates@[k].candidate_id@.len() > 0
                    && candidates@[k].inference_signature@.len() > 0,
        decreases inferences@.len() - i,
    {
        let mut id = text("cand_");
        push_u64_pad4(&mut id, i as u64);
        let candidate = match phase19_candidate_from_inference(id.as_str(), &inferences[i]) {
            Ok(c) => c,
            Err(e) => return Err(e),
        };
        proof {
            crate::text::lemma_hash16_len(inferences@[i as int].inference_signature@);
        }
        candidates.push(candidate);
        i = i + 1;
    }
    proof {
        lemma_candidates_ok(candidates@, 0);
    }
    let field = match phase19_build_arbitration_field(candidates.as_slice(), meta_operator) {
        Ok(f) => f,
        Err(e) => {
            assert(false);
            return Err(e);
        },
    };
    proof {
        lemma_field_ok(field, candidates@, meta_operator);
    }
    let decision = match phase19_select_winner(&field) {
        Ok(d) => d,
        Err(e) => {
            assert(false);
            return Err(e);
        },
    };
    Ok((field, decision))
}

proof fn lemma_candidates_ok(cands: Seq<Phase19ArbitrationCandidate>, i: int)
    requires
        0 <= i,
        forall|k: int|
            0 <= k < cands.len() ==> (#[trigger] cands[k]).candidate_id@.len() > 0
                && cands[k].inference_signature@.len() > 0,
    ensures
        first_bad_candidate(cands, i) is None,
    decreases cands.len() - i,
{
    if i < cands.len() {
        lemma_candidates_ok(cands, i + 1);
    }
}

proof fn lemma_field_candidates_ok(
    adjusted: Seq<Phase19ArbitrationCandidate>,
    cands: Seq<Phase19ArbitrationCandidate>,
    meta: Phase19MetaOperator,
    i: int,
)
    requires
        0 <= i,
        adjusted.len() == cands.len(),
        forall|k: int| 0 <= k < cands.len() ==> is_adjusted(#[trigger] adjusted[k], cands[k], meta),
        forall|k: int| 0 <= k < cands.len() ==> (#[trigger] cands[k]).candidate_id@.len() > 0,
    ensures
        first_bad_field_candidate(adjusted, i) is None,
    decreases adjusted.len() - i,
{
    if i < adjusted.len() {
        assert(is_adjusted(adjusted[i], cands[i], meta));
        crate::text::lemma_hash16_len(
            candidate_sig_input(
                cands[i].candidate_id@,
                cands[i].inference_signature@,
                cands[i].resonance_signature@,
                cands[i].semantic_label,
                cands[i].base_score as int,
                cands[i].base_score + meta_bias(meta, cands[i].semantic_label),
            ) + "|meta="@ + meta_name(meta),
        );
        lemma_field_candidates_ok(adjusted, cands, meta, i + 1);
    }
}

proof fn lemma_winner_in_range(cands: Seq<Phase19ArbitrationCandidate>, n: nat)
    requires
        n >= 1,
    ensures
        winner_index(cands, n) < n,
    decreases n,
{
    if n > 1 {
        lemma_winner_in_range(cands, (n - 1) as nat);
    }
}

proof fn lemma_field_ok(
    f: Phase19ArbitrationField,
    cands: Seq<Phase19ArbitrationCandidate>,
    meta: Phase19MetaOperator,
)
    requires
        cands.len() > 0,
        is_arbitration_field_of(f, cands, meta),
        forall|k: int| 0 <= k < cands.len() ==> (#[trigger] cands[k]).candidate_id@.len() > 0,
    ensures
        arbitration_field_error(f) is None,
{
    lemma_winner_in_range(f.candidates@, f.candidates@.len());
    lemma_field_candidates_ok(f.candidates@, cands, meta, 0);
    let w = f.winning_index as int;
    assert(is_adjusted(f.candidates@[w], cands[w], meta));
    crate::text::lemma_hash16_len(
        candidate_sig_input(
            cands[w].candidate_id@,
            cands[w].inference_signature@,
            cands[w].resonance_signature@,
            cands[w].semantic_label,
            cands[w].base_score as int,
            cands[w].base_score + meta_bias(meta, cands[w].semantic_label),
        ) + "|meta="@ + meta_name(meta),
    );
    crate::text::lemma_hash16_len(
        "meta="@ + meta_name(meta) + "|winner="@ + f.winning_signature@ + "|candidates=["@ + join(
            cand_sigs(f.candidates@),
            "|"@,
        ) + "]"@,
    );
}

proof fn lemma_field_candidate_ok(cands: Seq<Phase19ArbitrationCandidate>, i: int, k: int)
    requires
        0 <= i <= k < cands.len(),
        first_bad_field_candidate(cands, i) is None,
    ensures
        cands[k].candidate_id@.len() > 0,
        cands[k].candidate_signature@.len() > 0,
    decreases k - i,
{
    if i < k {
        lemma_field_candidate_ok(cands, i + 1, k);
    }
}

proof fn lemma_beats_transitive(a: Phase19ArbitrationCandidate, b: Phase19ArbitrationCandidate, c: Phase19ArbitrationCandidate)
    requires
        beats(a, b),
        beats(b, c),
    ensures
        beats(a, c),
{
    if a.adjusted_score == b.adjusted_score && b.adjusted_score == c.adjusted_score {
        crate::text::lemma_text_lt_transitive(a.candidate_signature@, b.candidate_signature@, c.candidate_signature@);
    }
}

proof fn lemma_winner_unbeaten(cands: Seq<Phase19ArbitrationCandidate>, n: nat)
    requires
        1 <= n <= cands.len(),
    ensures
        winner_index(cands, n) < n,
        forall|k: int| 0 <= k < n ==> !beats(#[trigger] cands[k], cands[winner_index(cands, n) as int]),
    decreases n,
{
    crate::text::lemma_text_lt_irreflexive(cands[0].candidate_signature@);
    if n > 1 {
        lemma_winner_unbeaten(cands, (n - 1) as nat);
        let w = winner_index(cands, (n - 1) as nat);
        let c = cands[n - 1];
        crate::text::lemma_text_lt_irreflexive(c.candidate_signature@);
        if beats(c, cands[w as int]) {
            assert forall|k: int| 0 <= k < n implies !beats(#[trigger] cands[k], c) by {
                if k < n - 1 && beats(cands[k], c) {
                    lemma_beats_transitive(cands[k], c, cands[w as int]);
                }
            }
        }
    }
}

/// The arbitration winner has the highest adjusted score of all
/// candidates, and no candidate with that score has a smaller signature.
pub proof fn lemma_winner_is_best(
    f: Phase19ArbitrationField,
    cands: Seq<Phase19ArbitrationCandidate>,
    meta: Phase19MetaOperator,
)
    requires
        is_arbitration_field_of(f, cands, meta),
        cands.len() > 0,
    ensures
        f.winning_index < f.candidates@.len(),
        forall|k: int|
            0 <= k < f.candidates@.len() ==> (#[trigger] f.candidates@[k]).adjusted_score
                <= f.candidates@[f.winning_index as int].adjusted_score,
        forall|k: int|
            0 <= k < f.candidates@.len() && (#[trigger] f.candidates@[k]).adjusted_score
                == f.candidates@[f.winning_index as int].adjusted_score ==> !text_lt(
                f.candidates@[k].candidate_signature@,
                f.candidates@[f.winning_index as int].candidate_signature@,
            ),
{
    lemma_winner_unbeaten(f.candidates@, f.candidates@.len());
}

/// How meta-operators re-score: InferenceFirst adds 6 whatever the label;
/// the other three give Conflict the lowest and a negative bias, and favour
/// a coherent reading (Alignment or Reinforcement) over Contrast.
pub proof fn lemma_meta_bias_order(c: Phase19ArbitrationCandidate, orig: Phase19ArbitrationCandidate, meta: Phase19MetaOperator)
    requires
        is_adjusted(c, orig, meta),
    ensures
        c.base_score == orig.base_score,
        meta == Phase19MetaOperator::InferenceFirst ==> c.adjusted_score == orig.base_score + 6,
        meta != Phase19MetaOperator::InferenceFirst && orig.semantic_label == Phase17SemanticLabel::Conflict
            ==> c.adjusted_score < orig.base_score,
        meta != Phase19MetaOperator::InferenceFirst ==> forall|l: Phase17SemanticLabel|
            #[trigger] meta_bias(meta, l) >= meta_bias(meta, Phase17SemanticLabel::Conflict),
        meta != Phase19MetaOperator::InferenceFirst && (orig.semantic_label == Phase17SemanticLabel::Alignment
            || orig.semantic_label == Phase17SemanticLabel::Reinforcement) ==> c.adjusted_score
            > orig.base_score + meta_bias(meta, Phase17SemanticLabel::Contrast),
{
}

/// The decision for the winner of a governed field passes the decision
/// governance checks.
pub proof fn lemma_decision_is_governed(f: Phase19ArbitrationField, d: Phase19ArbitrationDecision)
    requires
        arbitration_field_error(f) is None,
        is_decision_of(d, f),
    ensures
        decision_error(d) is None,
{
    lemma_field_candidate_ok(f.candidates@, 0, f.winning_index as int);
    let w = f.candidates@[f.winning_index as int];
    let reason = reason_text(f.meta_operator, f.winning_index as int);
    reveal_strlit("meta=");
    crate::text::lemma_hash16_len(
        "arb="@ + f.arbitration_signature@ + "|winner="@ + w.candidate_signature@ + "|reason="@
            + reason,
    );
}

/// Checks the arbitration field governance invariants.
pub fn phase19_validate_arbitration_field_invariants(field: &Phase19ArbitrationField) -> (r: Result<
    (),
    String,
>)
    ensures
        match r {
            Ok(_) => arbitration_field_error(*field) is None,
            Err(e) => arbitration_field_error(*field) == Some(e@),
        },
{
    if !field.field_well_formed {
        return Err(text("phase19_field_marked_malformed"));
    }
    if field.candidates.len() == 0 {
        return Err(text("phase19_candidates_empty"));
    }
    if field.winning_index >= field.candidates.len() {
        return Err(text("phase19_winning_index_out_of_bounds"));
    }
    if is_blank(&field.winning_signature) {
        return Err(text("phase19_winning_signature_empty"));
    }
    if is_blank(&field.arbitration_signature) {
        return Err(text("phase19_arbitration_signature_empty"));
    }
    let winner = &field.candidates[field.winning_index];
    if !same_text(&winner.candidate_signature, &field.winning_signature) {
        return Err(text("phase19_winning_signature_mismatch"));
    }
    let mut i: usize = 0;
    while i < field.candidates.len()
        invariant
            i <= field.candidates@.len(),
            arbitration_field_error(*field) == first_bad_field_candidate(field.candidates@, i as int),
        decreases field.candidates@.len() - i,
    {
        if is_blank(&field.candidates[i].candidate_id) {
            return Err(text("phase19_candidate_id_empty"));
        }
        if is_blank(&field.candidates[i].candidate_signature) {
            return Err(text("phase19_candidate_signature_empty"));
        }
        i = i + 1;
    }
    Ok(())
}

/// Checks the decision governance invariants.
pub fn phase19_validate_arbitration_decision_invariants(decision: &Phase19ArbitrationDecision) -> (r:
    Result<(), String>)
    ensures
        match r {
            Ok(_) => decision_error(*decision) is None,
            Err(e) => decision_error(*decision) == Some(e@),
        },
{
    if is_blank(&decision.selected_candidate_id) {
        return Err(text("phase19_selected_candidate_id_empty"));
    }
    if is_blank(&decision.selected_candidate_signature) {
        return Err(text("phase19_selected_candidate_signature_empty"));
    }
    if is_blank(&decision.decision_signature) {
        return Err(text("phase19_decision_signature_empty"));
    }
    if is_blank(&decision.resolution_reason) {
        return Err(text("phase19_resolution_reason_empty"));
    }
    Ok(())
}

/// The telemetry line published for an arbitration field.
pub open spec fn field_line(f: Phase19ArbitrationField) -> Seq<char> {
    "meta="@ + meta_name(f.meta_operator) + ":candidate_count="@ + dec_nat(f.candidates@.len())
        + ":winning_index="@ + dec_nat(f.winning_index as nat) + ":winning_signature="@
        + f.winning_signature@ + ":arbitration_signature="@ + f.arbitration_signature@
        + ":well_formed="@ + bool_text(f.field_well_formed)
}

/// The telemetry line published for an arbitration decision.
pub open spec fn decision_line(d: Phase19ArbitrationDecision) -> Seq<char> {
    "selected_id="@ + d.selected_candidate_id@ + ":selected_signature="@
        + d.selected_candidate_signature@ + ":label="@ + label_name(d.selected_semantic_label)
        + ":score="@ + dec_int(d.selected_score as int) + ":reason="@ + d.resolution_reason@
        + ":decision_signature="@ + d.decision_signature@
}

/// The telemetry line for an arbitration field.
pub fn phase19_field_telemetry_line(field: &Phase19ArbitrationField) -> (line: String)
    ensures
        line@ == field_line(*field),
{
    let mut line = text("meta=");
    push_str(&mut line, phase19_meta_name(field.meta_operator));
    push_str(&mut line, ":candidate_count=");
    push_usize(&mut line, field.candidates.len());
    push_str(&mut line, ":winning_index=");
    push_usize(&mut line, field.winning_index);
    push_str(&mut line, ":winning_signature=");
    push_str(&mut line, field.winning_signature.as_str());
    push_str(&mut line, ":arbitration_signature=");
    push_str(&mut line, field.arbitration_signature.as_str());
    push_str(&mut line, ":well_formed=");
    push_bool(&mut line, field.field_well_formed);
    line
}

/// The telemetry line for an arbitration decision.
pub fn phase19_decision_telemetry_line(decision: &Phase19ArbitrationDecision) -> (line: String)
    ensures
        line@ == decision_line(*decision),
{
    let mut line = text("selected_id=");
    push_str(&mut line, decision.selected_candidate_id.as_str());
    push_str(&mut line, ":selected_signature=");
    push_str(&mut line, decision.selected_candidate_signature.as_str());
    push_str(&mut line, ":label=");
    push_str(&mut line, phase19_label_name(decision.selected_semantic_label));
    push_str(&mut line, ":score=");
    push_i64(&mut line, decision.selected_score as i64);
    push_str(&mut line, ":reason=");
    push_str(&mut line, decision.resolution_reason.as_str());
    push_str(&mut line, ":decision_signature=");
    push_str(&mut line, decision.decision_signature.as_str());
    line
}

} // verus!
