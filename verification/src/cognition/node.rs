//! Semantic reasoning nodes and the cognitive frame that collects them,
//! tracks unresolved subjects and records every step in an audit trail.
use vstd::prelude::*;
use crate::geom::invariants::{ClosureStatus, ClosureTransition, InvariantViolation};
use crate::text::{bool_text, hex_bytes, hex_of_bytes, join, join_strings, push_str,
    push_utf8_bytes, same_text, sha256_digest, sha256_of, sort_texts, sorted_texts, text, views};

verus! {

/// A concept with a polarity and a confidence, named by a content hash.
#[derive(Debug, Clone)]
pub struct SemanticNode {
    pub id: String,
    pub concept: String,
    pub polarity: bool,
    pub confidence: u8,
}

/// A reasoning frame: its nodes, the subjects whose sense is still open,
/// its closure status and its audit trail.
#[derive(Debug, Clone)]
pub struct CognitiveFrame {
    pub topic: String,
    pub nodes: Vec<SemanticNode>,
    pub unresolved_subjects: Vec<String>,
    pub status: ClosureStatus,
    pub audit: Vec<String>,
}

// ── model ────────────────────────────────────────────────────────────────────

/// The id of a node: lower-case hex of the SHA-256 of the concept's UTF-8
/// bytes, a polarity byte (1 or 0) and the confidence byte.
pub open spec fn node_id(concept: Seq<char>, polarity: bool, confidence: u8) -> Seq<char> {
    hex_bytes(
        sha256_of(
            vstd::utf8::encode_utf8(concept) + seq![
                if polarity {
                    1u8
                } else {
                    0u8
                },
                confidence,
            ],
        ),
    )
}

/// The UTF-8 bytes of texts, one after another.
pub open spec fn utf8_all(parts: Seq<Seq<char>>) -> Seq<u8>
    decreases parts.len(),
{
    if parts.len() == 0 {
        Seq::empty()
    } else {
        utf8_all(parts.drop_last()) + vstd::utf8::encode_utf8(parts.last())
    }
}

pub open spec fn node_ids(nodes: Seq<SemanticNode>) -> Seq<Seq<char>> {
    nodes.map_values(|n: SemanticNode| n.id@)
}

/// The id of a frame: lower-case hex of the SHA-256 of its topic, node ids
/// and unresolved subjects, as UTF-8 bytes one after another.
pub open spec fn frame_id_of(f: CognitiveFrame) -> Seq<char> {
    hex_bytes(
        sha256_of(
            vstd::utf8::encode_utf8(f.topic@) + utf8_all(node_ids(f.nodes@)) + utf8_all(
                views(f.unresolved_subjects@),
            ),
        ),
    )
}

/// The status a closure attempt reaches, the audit line it records, whether
/// it counts as resolved by the last turn, and its summary.
pub open spec fn closure_outcome(f: CognitiveFrame) -> (ClosureStatus, Seq<char>, bool, Seq<char>) {
    if f.nodes@.len() == 0 {
        (
            ClosureStatus::Partial,
            "closure attempted: no nodes present"@,
            false,
            "missing semantic anchors"@,
        )
    } else if f.unresolved_subjects@.len() > 0 {
        let subjects = join(views(f.unresolved_subjects@), ","@);
        (
            ClosureStatus::Partial,
            "closure attempted: unresolved senses for "@ + subjects,
            false,
            "unresolved multi-sense disambiguation: "@ + subjects,
        )
    } else {
        (ClosureStatus::Closed, "closure attempted: closed"@, true, "all nodes resolved"@)
    }
}

/// What marking `subject` unresolved does to a frame: topic, nodes and
/// status stay; a subject already recorded leaves subjects and audit as they
/// were; otherwise the subjects gain it and stay in order, and the audit
/// trail gains one line that names it.
pub open spec fn unresolved_marked(before: CognitiveFrame, after: CognitiveFrame, subject: Seq<char>) -> bool {
    &&& after.topic == before.topic
    &&& after.nodes == before.nodes
    &&& after.status == before.status
    &&& if views(before.unresolved_subjects@).contains(subject) {
        &&& views(after.unresolved_subjects@) == views(before.unresolved_subjects@)
        &&& views(after.audit@) == views(before.audit@)
    } else {
        &&& sorted_texts(views(after.unresolved_subjects@))
        &&& views(after.unresolved_subjects@).to_multiset() == views(
            before.unresolved_subjects@,
        ).push(subject).to_multiset()
        &&& views(after.audit@) == views(before.audit@).push(
            "disambiguation unresolved for subject "@ + subject,
        )
    }
}

/// After a subject is marked unresolved it is among the frame's unresolved
/// subjects, and marking it again changes nothing: subjects, audit trail,
/// topic, nodes and status all stay.
pub proof fn lemma_mark_unresolved_idempotent(
    a: CognitiveFrame,
    b: CognitiveFrame,
    c: CognitiveFrame,
    subject: Seq<char>,
)
    requires
        unresolved_marked(a, b, subject),
        unresolved_marked(b, c, subject),
    ensures
        views(b.unresolved_subjects@).contains(subject),
        views(c.unresolved_subjects@) == views(b.unresolved_subjects@),
        views(c.audit@) == views(b.audit@),
        c.topic == b.topic,
        c.nodes == b.nodes,
        c.status == b.status,
{
    let sa = views(a.unresolved_subjects@);
    let sb = views(b.unresolved_subjects@);
    if !sa.contains(subject) {
        sa.to_multiset_ensures();
        sb.to_multiset_ensures();
        assert(sa.push(subject).to_multiset().count(subject) > 0);
        assert(sb.to_multiset().count(subject) > 0);
    }
}

/// A closure attempt closes the frame exactly when it has nodes and no
/// unresolved subject; it counts as resolved by the last turn exactly when
/// it closes; and with both nodes and unresolved subjects its summary names
/// the unresolved disambiguation.
pub proof fn lemma_closure_outcome_shape(f: CognitiveFrame)
    ensures
        (closure_outcome(f).0 == ClosureStatus::Closed) == (f.nodes@.len() > 0
            && f.unresolved_subjects@.len() == 0),
        closure_outcome(f).2 == (closure_outcome(f).0 == ClosureStatus::Closed),
        f.nodes@.len() > 0 && f.unresolved_subjects@.len() > 0 ==> closure_outcome(f).3
            == "unresolved multi-sense disambiguation: "@ + join(views(f.unresolved_subjects@), ","@),
{
}

// ── nodes ────────────────────────────────────────────────────────────────────

impl SemanticNode {
    /// A node for `concept`, with its content-hash id.
    pub fn new(concept: &str, polarity: bool, confidence: u8) -> (n: Self)
        ensures
            n.concept@ == concept@,
            n.polarity == polarity,
            n.confidence == confidence,
            n.id@ == node_id(concept@, polarity, confidence),
            n.id@.len() == 64,
    {
        let id = deterministic_id(concept, polarity, confidence);
        SemanticNode { id, concept: text(concept), polarity, confidence }
    }

    /// A field-for-field copy.
    pub fn duplicate(&self) -> (n: Self)
        ensures
            n == *self,
    {
        SemanticNode {
            id: self.id.clone(),
            concept: self.concept.clone(),
            polarity: self.polarity,
            confidence: self.confidence,
        }
    }
}

fn deterministic_id(concept: &str, polarity: bool, confidence: u8) -> (id: String)
    ensures
        id@ == node_id(concept@, polarity, confidence),
        id@.len() == 64,
{
    let mut bytes: Vec<u8> = Vec::new();
    push_utf8_bytes(&mut bytes, concept);
    let polarity_byte: u8 = if polarity {
        1
    } else {
        0
    };
    bytes.push(polarity_byte);
    bytes.push(confidence);
    assert(bytes@ =~= vstd::utf8::encode_utf8(concept@) + seq![
        if polarity {
            1u8
        } else {
            0u8
        },
        confidence,
    ]);
    let digest = sha256_digest(bytes.as_slice());
    proof {
        crate::json::lemma_hex_bytes_len(digest@);
    }
    hex_of_bytes(&digest)
}

fn duplicate_nodes(nodes: &Vec<SemanticNode>) -> (r: Vec<SemanticNode>)
    ensures
        r@ == nodes@,
{
    let mut out: Vec<SemanticNode> = Vec::new();
    let mut i: usize = 0;
    while i < nodes.len()
        invariant
            i <= nodes@.len(),
            out@ == nodes@.subrange(0, i as int),
        decreases nodes@.len() - i,
    {
        out.push(nodes[i].duplicate());
        i = i + 1;
        assert(out@ =~= nodes@.subrange(0, i as int));
    }
    assert(nodes@.subrange(0, nodes@.len() as int) =~= nodes@);
    out
}

fn duplicate_texts(v: &Vec<String>) -> (r: Vec<String>)
    ensures
        r@ == v@,
{
    let mut out: Vec<String> = Vec::new();
    let mut i: usize = 0;
    while i < v.len()
        invariant
            i <= v@.len(),
            out@ == v@.subrange(0, i as int),
        decreases v@.len() - i,
    {
        out.push(v[i].clone());
        i = i + 1;
        assert(out@ =~= v@.subrange(0, i as int));
    }
    assert(v@.subrange(0, v@.len() as int) =~= v@);
    out
}

// ── frames ───────────────────────────────────────────────────────────────────

impl CognitiveFrame {
    /// An open frame on `topic` with an initialized audit trail.
    pub fn new(topic: &str) -> (f: Self)
        ensures
            f.topic@ == topic@,
            f.nodes@.len() == 0,
            f.unresolved_subjects@.len() == 0,
            f.status == ClosureStatus::Open,
            views(f.audit@) == seq!["frame initialized"@],
    {
        let mut audit: Vec<String> = Vec::new();
        audit.push(text("frame initialized"));
        let f = CognitiveFrame {
            topic: text(topic),
            nodes: Vec::new(),
            unresolved_subjects: Vec::new(),
            status: ClosureStatus::Open,
            audit,
        };
        assert(views(f.audit@) =~= seq!["frame initialized"@]);
        f
    }

    /// Adds a node, recording it in the audit trail.
    pub fn add_node(&mut self, node: SemanticNode)
        ensures
            final(self).nodes@ == old(self).nodes@.push(node),
            views(final(self).audit@) == views(old(self).audit@).push("added node "@ + node.id@),
            final(self).topic == old(self).topic,
            final(self).unresolved_subjects == old(self).unresolved_subjects,
            final(self).status == old(self).status,
    {
        let mut line = text("added node ");
        push_str(&mut line, node.id.as_str());
        let ghost before = views(self.audit@);
        self.audit.push(line);
        assert(views(self.audit@) =~= before.push("added node "@ + node.id@));
        self.nodes.push(node);
    }

    /// Records that `subject` has no resolved sense yet. A subject already
    /// recorded is left alone; otherwise it is added, the subjects are kept
    /// in order and the audit trail notes it.
    pub fn mark_unresolved_subject(&mut self, subject: &str)
        ensures
            unresolved_marked(*old(self), *final(self), subject@),
    {
        let s = text(subject);
        let mut i: usize = 0;
        while i < self.unresolved_subjects.len()
            invariant
                i <= self.unresolved_subjects@.len(),
                s@ == subject@,
                forall|j: int| 0 <= j < i ==> self.unresolved_subjects@[j]@ != subject@,
            decreases self.unresolved_subjects@.len() - i,
        {
            if same_text(&self.unresolved_subjects[i], &s) {
                assert(views(self.unresolved_subjects@)[i as int] == subject@);
                return;
            }
            i = i + 1;
        }
        assert(!views(self.unresolved_subjects@).contains(subject@));
        let mut line = text("disambiguation unresolved for subject ");
        push_str(&mut line, subject);
        let ghost before_audit = views(self.audit@);
        self.audit.push(line);
        assert(views(self.audit@) =~= before_audit.push(
            "disambiguation unresolved for subject "@ + subject@,
        ));
        let mut subjects = duplicate_texts(&self.unresolved_subjects);
        let ghost before = views(subjects@);
        subjects.push(s);
        assert(views(subjects@) =~= before.push(subject@));
        self.unresolved_subjects = sort_texts(subjects);
    }

    /// The frame's content id.
    pub fn frame_id(&self) -> (id: String)
        ensures
            id@ == frame_id_of(*self),
    {
        let mut bytes: Vec<u8> = Vec::new();
        push_utf8_bytes(&mut bytes, self.topic.as_str());
        let mut i: usize = 0;
        while i < self.nodes.len()
            invariant
                i <= self.nodes@.len(),
                bytes@ == vstd::utf8::encode_utf8(self.topic@) + utf8_all(
                    node_ids(self.nodes@).subrange(0, i as int),
                ),
            decreases self.nodes@.len() - i,
        {
            push_utf8_bytes(&mut bytes, self.nodes[i].id.as_str());
            proof {
                let ids = node_ids(self.nodes@);
                assert(ids.subrange(0, i + 1).drop_last() =~= ids.subrange(0, i as int));
                assert(bytes@ =~= vstd::utf8::encode_utf8(self.topic@) + utf8_all(
                    ids.subrange(0, i + 1),
                ));
            }
            i = i + 1;
        }
        assert(node_ids(self.nodes@).subrange(0, self.nodes@.len() as int) =~= node_ids(
            self.nodes@,
        ));
        let ghost head = bytes@;
        let mut k: usize = 0;
        while k < self.unresolved_subjects.len()
            invariant
                k <= self.unresolved_subjects@.len(),
                bytes@ == head + utf8_all(views(self.unresolved_subjects@).subrange(0, k as int)),
            decreases self.unresolved_subjects@.len() - k,
        {
            push_utf8_bytes(&mut bytes, self.unresolved_subjects[k].as_str());
            proof {
                let vs = views(self.unresolved_subjects@);
                assert(vs.subrange(0, k + 1).drop_last() =~= vs.subrange(0, k as int));
                assert(bytes@ =~= head + utf8_all(vs.subrange(0, k + 1)));
            }
            k = k + 1;
        }
        assert(views(self.unresolved_subjects@).subrange(0, self.unresolved_subjects@.len() as int)
            =~= views(self.unresolved_subjects@));
        assert(bytes@ =~= vstd::utf8::encode_utf8(self.topic@) + utf8_all(node_ids(self.nodes@))
            + utf8_all(views(self.unresolved_subjects@)));
        let digest = sha256_digest(bytes.as_slice());
        hex_of_bytes(&digest)
    }

    /// The frame's closure status.
    pub fn closure_status(&self) -> (s: ClosureStatus)
        ensures
            s == self.status,
    {
        self.status
    }

    /// Checks that the frame keeps an audit trail.
    pub fn validate(&self) -> (r: Result<(), InvariantViolation>)
        ensures
            match r {
                Ok(_) => self.audit@.len() > 0,
                Err(v) => self.audit@.len() == 0 && match v {
                    InvariantViolation::Auditability { message, missing_audit_step } => message@
                        == "audit trail cannot be empty"@ && missing_audit_step@
                        == "frame initialized"@,
                    _ => false,
                },
            },
    {
        if self.audit.len() == 0 {
            return Err(
                InvariantViolation::Auditability {
                    message: text("audit trail cannot be empty"),
                    missing_audit_step: text("frame initialized"),
                },
            );
        }
        Ok(())
    }

    /// Attempts to close the frame: without nodes, or with unresolved
    /// subjects, it stays partial; otherwise it closes. The attempt is
    /// recorded in the new frame's audit trail and described by a transition.
    pub fn attempt_closure(&self) -> (r: (Self, Option<ClosureTransition>))
        ensures
            ({
                let (next, t) = r;
                let o = closure_outcome(*self);
                &&& next.topic == self.topic
                &&& next.nodes@ == self.nodes@
                &&& next.unresolved_subjects@ == self.unresolved_subjects@
                &&& next.status == o.0
                &&& views(next.audit@) == views(self.audit@).push(o.1)
                &&& t matches Some(tr) && tr.from_status == self.status && tr.to_status == o.0
                    && tr.resolved_by_last_user_turn == o.2 && tr.reasoning_summary@ == o.3
            }),
    {
        let nodes = duplicate_nodes(&self.nodes);
        let subjects = duplicate_texts(&self.unresolved_subjects);
        let mut audit = duplicate_texts(&self.audit);
        let ghost before = views(audit@);
        proof {
            reveal_strlit(",");
        }
        let (status, line, resolved, summary) = if self.nodes.len() == 0 {
            (
                ClosureStatus::Partial,
                text("closure attempted: no nodes present"),
                false,
                text("missing semantic anchors"),
            )
        } else if self.unresolved_subjects.len() > 0 {
            let joined = join_strings(&self.unresolved_subjects, ",");
            let mut line = text("closure attempted: unresolved senses for ");
            push_str(&mut line, joined.as_str());
            let mut summary = text("unresolved multi-sense disambiguation: ");
            push_str(&mut summary, joined.as_str());
            (ClosureStatus::Partial, line, false, summary)
        } else {
            (
                ClosureStatus::Closed,
                text("closure attempted: closed"),
                true,
                text("all nodes resolved"),
            )
        };
        audit.push(line);
        assert(views(audit@) =~= before.push(closure_outcome(*self).1));
        let next = CognitiveFrame {
            topic: self.topic.clone(),
            nodes,
            unresolved_subjects: subjects,
            status,
            audit,
        };
        let transition = ClosureTransition {
            from_status: self.status,
            to_status: status,
            resolved_by_last_user_turn: resolved,
            reasoning_summary: summary,
        };
        (next, Some(transition))
    }

    /// Appends a derivation step to the audit trail.
    pub fn record_derivation(&mut self, step: String)
        ensures
            final(self).audit@ == old(self).audit@.push(step),
            final(self).topic == old(self).topic,
            final(self).nodes == old(self).nodes,
            final(self).unresolved_subjects == old(self).unresolved_subjects,
            final(self).status == old(self).status,
    {
        self.audit.push(step);
    }

    /// A copy of the audit trail.
    pub fn audit_trail(&self) -> (r: Vec<String>)
        ensures
            r@ == self.audit@,
    {
        duplicate_texts(&self.audit)
    }
}

} // verus!
