//! Multi-frame cognition: the artifacts that several reasoning frames
//! consolidate into: stable senses, concept anchors and emergent concepts.
use vstd::prelude::*;
use crate::cognition::constraint::SemanticConstraint;
use crate::text::{
    insert_keyed, lemma_insert_keyed_at, lemma_text_lt_irreflexive, lemma_text_lt_total,
    lemma_text_lt_transitive, less_than, same_text, strictly_sorted_texts, text_lt,
};

verus! {

/// Tuning of a multi-frame run.
#[derive(Debug, Clone, Copy)]
pub struct MultiFrameConfig {
    pub iterations: usize,
    pub worker_count: usize,
    pub ambiguity_margin: i64,
    pub target_energy: i64,
    pub compression_threshold: i64,
    pub convergence_window: usize,
    pub energy_delta_threshold: i64,
    pub anchor_energy_max: i64,
    pub anchor_pull_strength: i64,
    pub anchor_min_persistence: usize,
    pub anchor_alignment_window: i64,
    pub anchor_contradiction_highlight: i64,
    pub anchor_fusion_bias: i64,
    pub emergent_min_cluster_size: usize,
    pub emergent_min_anchor_support: usize,
    pub emergent_resonance_threshold: i64,
    pub emergent_min_persistence: usize,
    pub emergent_constraint_weight: u8,
}

impl Default for MultiFrameConfig {
    fn default() -> (c: Self)
        ensures
            c.iterations == 6 && c.worker_count == 4 && c.ambiguity_margin == 5000
                && c.target_energy == 500 && c.compression_threshold == 1
                && c.convergence_window == 2 && c.energy_delta_threshold == 2
                && c.anchor_energy_max == 500 && c.anchor_pull_strength == 4
                && c.anchor_min_persistence == 2 && c.anchor_alignment_window == 25
                && c.anchor_contradiction_highlight == 6 && c.anchor_fusion_bias == 8
                && c.emergent_min_cluster_size == 2 && c.emergent_min_anchor_support == 1
                && c.emergent_resonance_threshold == 40 && c.emergent_min_persistence == 2
                && c.emergent_constraint_weight == 36,
    {
        MultiFrameConfig {
            iterations: 6,
            worker_count: 4,
            ambiguity_margin: 5000,
            target_energy: 500,
            compression_threshold: 1,
            convergence_window: 2,
            energy_delta_threshold: 2,
            anchor_energy_max: 500,
            anchor_pull_strength: 4,
            anchor_min_persistence: 2,
            anchor_alignment_window: 25,
            anchor_contradiction_highlight: 6,
            anchor_fusion_bias: 8,
            emergent_min_cluster_size: 2,
            emergent_min_anchor_support: 1,
            emergent_resonance_threshold: 40,
            emergent_min_persistence: 2,
            emergent_constraint_weight: 36,
        }
    }
}

/// A concept that emerged from several anchors agreeing about a subject.
#[derive(Debug, Clone, PartialEq, Eq)]
pub struct EmergentConcept {
    pub id: String,
    pub subject: String,
    pub basis_anchors: Vec<String>,
    pub members: Vec<String>,
    pub resonance_score: i64,
    pub persistence_hits: usize,
    pub canonical_hash: String,
}

/// A concept that stayed stable long enough to anchor later frames.
#[derive(Debug, Clone, PartialEq, Eq)]
pub struct ConceptAnchor {
    pub id: String,
    pub canonical_hash: String,
    pub energy: i64,
    pub persistence_hits: usize,
    pub frame_count: usize,
}

/// The anchors registered so far.
#[derive(Debug, Clone, PartialEq, Eq)]
pub struct AnchorRegistry {
    pub anchors: Vec<ConceptAnchor>,
}

impl Default for AnchorRegistry {
    /// No anchors.
    fn default() -> (r: Self)
        ensures
            r.anchors@.len() == 0,
    {
        AnchorRegistry { anchors: Vec::new() }
    }
}

/// How far one multi-frame iteration has settled.
#[derive(Debug, Clone, PartialEq, Eq)]
pub struct StabilizationMetrics {
    pub energy_delta: i64,
    pub contradiction_count: usize,
    pub unresolved_subjects: usize,
    pub disambiguation_gap_median: i64,
    pub fused_constraints: usize,
    pub active_anchors: usize,
    pub anchor_overlap: usize,
    pub anchor_drift: i64,
    pub anchor_stability: i64,
    pub anchor_field_coherence: i64,
    pub anchor_contradictions_highlighted: usize,
    pub emergent_candidates: usize,
    pub emergent_concepts_active: usize,
}

/// A sense that several frames selected for a subject.
#[derive(Debug, Clone, PartialEq, Eq)]
pub struct StableSense {
    pub subject: String,
    pub selected_concept: String,
    pub support_frames: usize,
}

/// What a multi-frame run consolidates into memory.
#[derive(Debug, Clone, PartialEq, Eq)]
pub struct ConsolidatedMemory {
    pub converged_iteration: Option<usize>,
    pub fused_constraints: Vec<SemanticConstraint>,
    pub stable_senses: Vec<StableSense>,
    pub anchor_basis_ids: Vec<String>,
    pub anchor_basis_hash: String,
    pub self_continuity_score: i64,
    pub external_change_score: i64,
    pub emergent_concepts: Vec<EmergentConcept>,
    pub ontology_expansion_score: i64,
    pub artifact_hash: String,
}

/// The result of one frame in one iteration.
#[derive(Debug, Clone, PartialEq, Eq)]
pub struct FrameIterationResult {
    pub topic: String,
    pub frame_id: String,
    pub closure_status: String,
    pub selected_senses: Vec<(String, String, bool, i64)>,
    pub field_concepts: usize,
}

/// One iteration over all frames.
#[derive(Debug, Clone, PartialEq, Eq)]
pub struct MultiFrameIteration {
    pub iteration_index: usize,
    pub frame_results: Vec<FrameIterationResult>,
    pub shared_field_concepts: usize,
    pub propagated_constraints: usize,
    pub metrics: StabilizationMetrics,
    pub converged: bool,
    pub iteration_hash: String,
}

/// The report of a multi-frame run.
#[derive(Debug, Clone, PartialEq, Eq)]
pub struct MultiFrameReport {
    pub iterations: Vec<MultiFrameIteration>,
    pub converged_iteration: Option<usize>,
    pub consolidated_memory: ConsolidatedMemory,
    pub anchor_registry: AnchorRegistry,
    pub final_trace_hash: String,
}

impl Default for MultiFrameCognition {
    /// No frames and no anchors.
    fn default() -> (m: Self)
        ensures
            m@ == Seq::<FrameView>::empty(),
    {
        MultiFrameCognition::new()
    }
}

/// A frame as plain values: its topic and its constraints.
pub type FrameView = (Seq<char>, Seq<SemanticConstraint>);

pub open spec fn frame_key() -> spec_fn(FrameView) -> Seq<char> {
    |f: FrameView| f.0
}

pub open spec fn frame_topics(v: Seq<FrameView>) -> Seq<Seq<char>> {
    v.map_values(|f: FrameView| f.0)
}

/// The frames after registering `c` under `t`: the frame of that topic
/// replaced where there is one, otherwise a new frame in topic order.
pub open spec fn with_frame(v: Seq<FrameView>, t: Seq<char>, c: Seq<SemanticConstraint>) -> Seq<FrameView> {
    if frame_topics(v).contains(t) {
        v.update(frame_topics(v).index_of(t), (t, c))
    } else {
        insert_keyed(v, (t, c), frame_key())
    }
}

pub open spec fn frame_views(f: Seq<(String, Vec<SemanticConstraint>)>) -> Seq<FrameView> {
    f.map_values(|f: (String, Vec<SemanticConstraint>)| (f.0@, f.1@))
}

/// The reasoning frames of a multi-frame run, one per topic in topic order.
pub struct MultiFrameCognition {
    frames: Vec<(String, Vec<SemanticConstraint>)>,
}

impl View for MultiFrameCognition {
    type V = Seq<FrameView>;

    closed spec fn view(&self) -> Seq<FrameView> {
        frame_views(self.frames@)
    }
}

impl MultiFrameCognition {
    #[verifier::type_invariant]
    closed spec fn topics_ordered(self) -> bool {
        strictly_sorted_texts(frame_topics(self@))
    }

    /// No frames and no anchors.
    pub fn new() -> (m: Self)
        ensures
            m@ == Seq::<FrameView>::empty(),
    {
        let m = MultiFrameCognition { frames: Vec::new() };
        assert(m@ =~= Seq::<FrameView>::empty());
        m
    }

    /// Registers `constraints` as the frame of `topic`, replacing the frame
    /// already registered under that topic.
    pub fn register_frame(&mut self, topic: &str, constraints: Vec<SemanticConstraint>)
        ensures
            final(self)@ == with_frame(old(self)@, topic@, constraints@),
            strictly_sorted_texts(frame_topics(final(self)@)),
            final(self)@.len() == old(self)@.len() + if frame_topics(old(self)@).contains(topic@) {
                0int
            } else {
                1int
            },
    {
        proof {
            use_type_invariant(&*self);
        }
        let ghost v = self@;
        let ghost tp = frame_topics(v);
        let mut frames: Vec<(String, Vec<SemanticConstraint>)> = Vec::new();
        std::mem::swap(&mut frames, &mut self.frames);
        let mut i: usize = 0;
        while i < frames.len()
            invariant
                v == frame_views(frames@),
                v == old(self)@,
                tp == frame_topics(v),
                strictly_sorted_texts(tp),
                frames@.len() == v.len(),
                i <= v.len(),
                forall|k: int| 0 <= k < i ==> text_lt(#[trigger] tp[k], topic@),
            decreases v.len() - i,
        {
            assert(v[i as int] == (frames@[i as int].0@, frames@[i as int].1@));
            assert(tp[i as int] == frames@[i as int].0@);
            if same_text_str(&frames[i].0, topic) {
                proof {
                    assert(tp.contains(topic@));
                    assert forall|k: int| 0 <= k < tp.len() && k != i implies tp[k] != topic@ by {
                        if k < i {
                            lemma_text_lt_irreflexive(topic@);
                        } else {
                            lemma_text_lt_irreflexive(tp[k]);
                        }
                    }
                    assert(tp.index_of(topic@) == i);
                }
                let ghost c = constraints@;
                frames.set(i, (String::from_str(topic), constraints));
                proof {
                    assert(frame_views(frames@) =~= v.update(i as int, (topic@, c)));
                    assert(frame_topics(frame_views(frames@)) =~= tp);
                    assert(with_frame(v, topic@, c) == v.update(i as int, (topic@, c)));
                }
                self.frames = frames;
                assert(self@ == frame_views(frames@));
                return;
            }
            if less_than(topic, frames[i].0.as_str()) {
                proof {
                    assert forall|k: int| 0 <= k < tp.len() implies tp[k] != topic@ by {
                        if k < i {
                            lemma_text_lt_irreflexive(topic@);
                        } else if k > i {
                            lemma_text_lt_transitive(topic@, tp[i as int], tp[k]);
                            lemma_text_lt_irreflexive(topic@);
                        } else {
                            lemma_text_lt_irreflexive(topic@);
                        }
                    }
                    assert(!tp.contains(topic@));
                    assert forall|k: int| 0 <= k < i implies !text_lt(topic@, #[trigger] frame_key()(v[k])) by {
                        assert(frame_key()(v[k]) == tp[k]);
                        if text_lt(topic@, tp[k]) {
                            lemma_text_lt_transitive(topic@, tp[k], topic@);
                            lemma_text_lt_irreflexive(topic@);
                        }
                    }
                    assert(frame_key()(v[i as int]) == tp[i as int]);
                }
                let ghost c = constraints@;
                frames.insert(i, (String::from_str(topic), constraints));
                proof {
                    lemma_insert_keyed_at(v, (topic@, c), frame_key(), i as int);
                    assert(frame_views(frames@) =~= v.subrange(0, i as int) + seq![(topic@, c)] + v.subrange(i as int, v.len() as int));
                    let nt = frame_topics(frame_views(frames@));
                    assert(nt.len() == tp.len() + 1);
                    assert forall|k: int| 0 <= k < nt.len() implies #[trigger] nt[k] == (if k < i {
                        tp[k]
                    } else if k == i {
                        topic@
                    } else {
                        tp[k - 1]
                    }) by {}
                    assert forall|a: int, b: int| 0 <= a < b < nt.len() implies text_lt(#[trigger] nt[a], #[trigger] nt[b]) by {
                        if a < i && b == i {
                        } else if a < i && b > i {
                            if b - 1 > i {
                                lemma_text_lt_transitive(topic@, tp[i as int], tp[b - 1]);
                            }
                            lemma_text_lt_transitive(tp[a], topic@, tp[b - 1]);
                        } else if a == i {
                            if b - 1 > i {
                                lemma_text_lt_transitive(topic@, tp[i as int], tp[b - 1]);
                            }
                        } else {
                        }
                    }
                }
                self.frames = frames;
                return;
            }
            proof {
                if topic@ != tp[i as int] {
                    lemma_text_lt_total(topic@, tp[i as int]);
                }
            }
            i = i + 1;
        }
        proof {
            assert forall|k: int| 0 <= k < tp.len() implies tp[k] != topic@ by {
                lemma_text_lt_irreflexive(topic@);
            }
            assert(!tp.contains(topic@));
            assert forall|k: int| 0 <= k < v.len() implies !text_lt(topic@, #[trigger] frame_key()(v[k])) by {
                assert(frame_key()(v[k]) == tp[k]);
                if text_lt(topic@, tp[k]) {
                    lemma_text_lt_transitive(topic@, tp[k], topic@);
                    lemma_text_lt_irreflexive(topic@);
                }
            }
        }
        let ghost c = constraints@;
        frames.push((String::from_str(topic), constraints));
        proof {
            lemma_insert_keyed_at(v, (topic@, c), frame_key(), v.len() as int);
            assert(frame_views(frames@) =~= v.subrange(0, v.len() as int) + seq![(topic@, c)] + v.subrange(v.len() as int, v.len() as int));
            let nt = frame_topics(frame_views(frames@));
            assert(nt.len() == tp.len() + 1);
            assert forall|k: int| 0 <= k < nt.len() implies #[trigger] nt[k] == (if k < tp.len() {
                tp[k]
            } else {
                topic@
            }) by {}
            assert forall|a: int, b: int| 0 <= a < b < nt.len() implies text_lt(#[trigger] nt[a], #[trigger] nt[b]) by {
                if b == v.len() {
                    assert(text_lt(tp[a], topic@));
                } else {
                }
            }
        }
        self.frames = frames;
    }

    /// How many frames are registered.
    pub fn frame_count(&self) -> (n: usize)
        ensures
            n == self@.len(),
    {
        self.frames.len()
    }
}

fn same_text_str(a: &String, b: &str) -> (r: bool)
    ensures
        r == (a@ == b@),
{
    let bb = String::from_str(b);
    same_text(a, &bb)
}

} // verus!
