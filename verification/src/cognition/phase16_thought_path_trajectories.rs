//! Thought paths: labelled single- and two-qubit operations applied in turn
//! to a binding, recorded step by step and classified by their dynamics.
use vstd::prelude::*;
use crate::cognition::phase13_qubit_kernel::{
    phase13_apply_unitary, rotate, Phase13QubitState, Phase13QubitUnaryOp,
};
use crate::cognition::phase14_operator_algebra::op_name;
use crate::cognition::phase15_two_qubit_semantic_binding::{
    binding_kind_name, initial_model, is_binding_of, lemma_binding_of_is_valid,
    lemma_valid_is_binding_of_model, model_binding_sig, model_of, phase15_apply_two_qubit_op,
    phase15_build_two_qubit_state, phase15_validate_two_qubit_invariants, two_op_name,
    two_state_error, two_step, valid_two_state, Phase15BindingKind, Phase15TwoQubitOp,
    Phase15TwoQubitState, TwoQubitModel,
};
use crate::text::{bool_text, dec_nat, push_bool, dec_int, hash16, hash_text, is_blank, join, join_strings, lemma_hash16_len, push_str,
    push_usize, text, views};

verus! {

/// Which qubit a single-qubit thought op targets.
#[derive(Debug, Clone, Copy, PartialEq, Eq, Structural)]
pub enum Phase16QubitTarget {
    Q1,
    Q2,
}

/// The operation applied at one step of a thought path.
#[derive(Debug, Clone, PartialEq, Eq, Structural)]
pub enum Phase16ThoughtOpKind {
    SingleQubit { target: Phase16QubitTarget, op: Phase13QubitUnaryOp },
    TwoQubit { op: Phase15TwoQubitOp },
}

/// A governed, labeled thought operation.
#[derive(Debug, Clone, PartialEq, Eq)]
pub struct Phase16ThoughtOp {
    pub kind: Phase16ThoughtOpKind,
    pub label: String,
    /// Canonical hash of the op's identity.
    pub op_signature: String,
}

/// Classification of a thought trajectory based on binding dynamics.
#[derive(Debug, Clone, Copy, PartialEq, Eq, Structural)]
pub enum Phase16TrajectoryKind {
    /// Zero ops applied.
    Degenerate,
    /// At least one step produced `EntanglingOpApplied` binding.
    Entangling,
    /// Final binding_kind matches initial; no entangling op was applied.
    Convergent,
    /// Final binding_kind differs from initial; no entangling op was applied.
    Divergent,
}

/// One governed transition in a thought path.
#[derive(Debug, Clone, PartialEq, Eq)]
pub struct Phase16ThoughtStep {
    pub step_index: usize,
    pub from_binding_signature: String,
    pub op_signature: String,
    pub to_binding_signature: String,
    pub to_binding_kind: Phase15BindingKind,
    /// Canonical hash covering from, op, and to.
    pub step_signature: String,
}

/// A complete, auditable, replay-stable thought trajectory.
#[derive(Debug, Clone, PartialEq, Eq)]
pub struct Phase16ThoughtTrajectory {
    pub initial_binding_signature: String,
    pub initial_binding_kind: Phase15BindingKind,
    pub steps: Vec<Phase16ThoughtStep>,
    pub step_count: usize,
    pub final_binding_signature: String,
    pub final_binding_kind: Phase15BindingKind,
    pub trajectory_kind: Phase16TrajectoryKind,
    /// Canonical hash covering: initial, all step signatures in order, final.
    pub trajectory_signature: String,
    pub trajectory_well_formed: bool,
}

// ── model ────────────────────────────────────────────────────────────────────

pub open spec fn target_name(t: Phase16QubitTarget) -> Seq<char> {
    match t {
        Phase16QubitTarget::Q1 => "Q1"@,
        Phase16QubitTarget::Q2 => "Q2"@,
    }
}

pub open spec fn trajectory_kind_name(k: Phase16TrajectoryKind) -> Seq<char> {
    match k {
        Phase16TrajectoryKind::Degenerate => "Degenerate"@,
        Phase16TrajectoryKind::Entangling => "Entangling"@,
        Phase16TrajectoryKind::Convergent => "Convergent"@,
        Phase16TrajectoryKind::Divergent => "Divergent"@,
    }
}

/// The binding model after one thought operation. A single-qubit operation
/// rebuilds the binding from scratch (fresh history, recomputed class).
pub open spec fn thought_step(m: TwoQubitModel, k: Phase16ThoughtOpKind) -> TwoQubitModel {
    match k {
        Phase16ThoughtOpKind::TwoQubit { op } => two_step(m, op),
        Phase16ThoughtOpKind::SingleQubit { target, op } => match target {
            Phase16QubitTarget::Q1 => initial_model(rotate(op, m.0.0, m.0.1, m.0.2), m.1),
            Phase16QubitTarget::Q2 => initial_model(m.0, rotate(op, m.1.0, m.1.1, m.1.2)),
        },
    }
}

pub open spec fn op_kinds(ops: Seq<Phase16ThoughtOp>) -> Seq<Phase16ThoughtOpKind> {
    ops.map_values(|o: Phase16ThoughtOp| o.kind)
}

/// The binding model after the first operations `ks`.
pub open spec fn thought_steps(m: TwoQubitModel, ks: Seq<Phase16ThoughtOpKind>) -> TwoQubitModel
    decreases ks.len(),
{
    if ks.len() == 0 {
        m
    } else {
        thought_step(thought_steps(m, ks.drop_last()), ks.last())
    }
}

/// The model reached after the first `i` operations of `ops`.
pub open spec fn model_at(m: TwoQubitModel, ops: Seq<Phase16ThoughtOp>, i: int) -> TwoQubitModel {
    thought_steps(m, op_kinds(ops).subrange(0, i))
}

pub open spec fn step_sig_input(i: int, from: Seq<char>, op_sig: Seq<char>, to: Seq<char>) -> Seq<char> {
    "step="@ + dec_int(i) + "|from="@ + from + "|op="@ + op_sig + "|to="@ + to
}

/// Step `i` of the trace of `ops` from model `m`.
pub open spec fn is_trace_step(
    s: Phase16ThoughtStep,
    m: TwoQubitModel,
    ops: Seq<Phase16ThoughtOp>,
    i: int,
) -> bool {
    let from = model_binding_sig(model_at(m, ops, i));
    let to_model = model_at(m, ops, i + 1);
    &&& s.step_index == i
    &&& s.from_binding_signature@ == from
    &&& s.op_signature@ == ops[i].op_signature@
    &&& s.to_binding_signature@ == model_binding_sig(to_model)
    &&& s.to_binding_kind == to_model.2
    &&& s.step_signature@ == hash16(
        step_sig_input(i, from, ops[i].op_signature@, model_binding_sig(to_model)),
    )
}

/// Some step of the first `n` reaches an entangled binding.
pub open spec fn any_entangling(m: TwoQubitModel, ops: Seq<Phase16ThoughtOp>, n: int) -> bool {
    exists|i: int|
        0 <= i < n && (#[trigger] model_at(m, ops, i + 1)).2
            == Phase15BindingKind::EntanglingOpApplied
}

pub open spec fn classify_trajectory(
    m: TwoQubitModel,
    ops: Seq<Phase16ThoughtOp>,
) -> Phase16TrajectoryKind {
    if ops.len() == 0 {
        Phase16TrajectoryKind::Degenerate
    } else if any_entangling(m, ops, ops.len() as int) {
        Phase16TrajectoryKind::Entangling
    } else if model_at(m, ops, ops.len() as int).2 == m.2 {
        Phase16TrajectoryKind::Convergent
    } else {
        Phase16TrajectoryKind::Divergent
    }
}

pub open spec fn step_sigs(steps: Seq<Phase16ThoughtStep>) -> Seq<Seq<char>> {
    steps.map_values(|s: Phase16ThoughtStep| s.step_signature@)
}

/// The first step, from `i` on, whose index or signature is off.
pub open spec fn first_bad_step(steps: Seq<Phase16ThoughtStep>, i: int) -> Option<Seq<char>>
    decreases steps.len() - i,
{
    if i < 0 || i >= steps.len() {
        None
    } else if steps[i].step_index != i {
        Some(
            "phase16_step_index_mismatch: expected "@ + dec_int(i) + " got "@ + dec_int(
                steps[i].step_index as int,
            ),
        )
    } else if steps[i].step_signature@.len() == 0 {
        Some("phase16_step_signature_empty at step "@ + dec_int(i))
    } else {
        first_bad_step(steps, i + 1)
    }
}

/// The verdict of `phase16_validate_trajectory_invariants`.
pub open spec fn trajectory_error(t: Phase16ThoughtTrajectory) -> Option<Seq<char>> {
    if !t.trajectory_well_formed {
        Some("phase16_trajectory_marked_malformed"@)
    } else if t.trajectory_signature@.len() == 0 {
        Some("phase16_trajectory_signature_empty"@)
    } else if t.initial_binding_signature@.len() == 0 {
        Some("phase16_initial_binding_signature_empty"@)
    } else if t.step_count != t.steps@.len() {
        Some(
            "phase16_step_count_mismatch: declared "@ + dec_int(t.step_count as int) + " actual "@
                + dec_int(t.steps@.len() as int),
        )
    } else {
        first_bad_step(t.steps@, 0)
    }
}

pub open spec fn valid_trajectory(t: Phase16ThoughtTrajectory) -> bool {
    trajectory_error(t) is None
}

/// With no bad step from `i` on, every later step carries its own index and a signature.
pub proof fn lemma_no_bad_step(steps: Seq<Phase16ThoughtStep>, i: int)
    requires
        0 <= i,
        first_bad_step(steps, i) is None,
    ensures
        forall|k: int|
            i <= k < steps.len() ==> (#[trigger] steps[k]).step_index == k
                && steps[k].step_signature@.len() > 0,
    decreases steps.len() - i,
{
    if i < steps.len() {
        lemma_no_bad_step(steps, i + 1);
    }
}

// ── construction ─────────────────────────────────────────────────────────────

fn phase16_target_name(t: Phase16QubitTarget) -> (s: &'static str)
    ensures
        s@ == target_name(t),
{
    match t {
        Phase16QubitTarget::Q1 => "Q1",
        Phase16QubitTarget::Q2 => "Q2",
    }
}

fn phase16_unary_name(op: Phase13QubitUnaryOp) -> (s: &'static str)
    ensures
        s@ == op_name(op),
{
    match op {
        Phase13QubitUnaryOp::PauliX => "PauliX",
        Phase13QubitUnaryOp::PauliZ => "PauliZ",
        Phase13QubitUnaryOp::FixedHadamard => "FixedHadamard",
    }
}

fn phase16_two_name(op: Phase15TwoQubitOp) -> (s: &'static str)
    ensures
        s@ == two_op_name(op),
{
    match op {
        Phase15TwoQubitOp::Swap => "Swap",
        Phase15TwoQubitOp::ControlledZ => "ControlledZ",
        Phase15TwoQubitOp::ControlledX => "ControlledX",
    }
}

fn phase16_trajectory_kind_name(k: Phase16TrajectoryKind) -> (s: &'static str)
    ensures
        s@ == trajectory_kind_name(k),
{
    match k {
        Phase16TrajectoryKind::Degenerate => "Degenerate",
        Phase16TrajectoryKind::Entangling => "Entangling",
        Phase16TrajectoryKind::Convergent => "Convergent",
        Phase16TrajectoryKind::Divergent => "Divergent",
    }
}

/// A single-qubit thought op targeting q1 or q2.
pub fn phase16_build_single_qubit_op(target: Phase16QubitTarget, op: Phase13QubitUnaryOp) -> (t:
    Phase16ThoughtOp)
    ensures
        t.kind == (Phase16ThoughtOpKind::SingleQubit { target, op }),
        t.label@ == op_name(op) + "("@ + target_name(target) + ")"@,
        t.op_signature@ == hash16(
            "kind=SingleQubit|target="@ + target_name(target) + "|op="@ + op_name(op),
        ),
{
    let mut label = text(phase16_unary_name(op));
    push_str(&mut label, "(");
    push_str(&mut label, phase16_target_name(target));
    push_str(&mut label, ")");
    let mut input = text("kind=SingleQubit|target=");
    push_str(&mut input, phase16_target_name(target));
    push_str(&mut input, "|op=");
    push_str(&mut input, phase16_unary_name(op));
    let op_signature = hash_text(input.as_str());
    Phase16ThoughtOp { kind: Phase16ThoughtOpKind::SingleQubit { target, op }, label, op_signature }
}

/// A two-qubit thought op.
pub fn phase16_build_two_qubit_op(op: Phase15TwoQubitOp) -> (t: Phase16ThoughtOp)
    ensures
        t.kind == (Phase16ThoughtOpKind::TwoQubit { op }),
        t.label@ == two_op_name(op),
        t.op_signature@ == hash16("kind=TwoQubit|op="@ + two_op_name(op)),
{
    let label = text(phase16_two_name(op));
    let mut input = text("kind=TwoQubit|op=");
    push_str(&mut input, phase16_two_name(op));
    let op_signature = hash_text(input.as_str());
    Phase16ThoughtOp { kind: Phase16ThoughtOpKind::TwoQubit { op }, label, op_signature }
}

/// Applies one thought op to a governed binding.
pub fn phase16_apply_thought_op(state: &Phase15TwoQubitState, thought_op: &Phase16ThoughtOp) -> (r:
    Result<Phase15TwoQubitState, String>)
    ensures
        match r {
            Ok(s) => valid_two_state(*state) && is_binding_of(
                s,
                thought_step(model_of(*state), thought_op.kind),
            ) && valid_two_state(s),
            Err(e) => two_state_error(*state) == Some(e@),
        },
{
    match phase15_validate_two_qubit_invariants(state) {
        Ok(_) => {},
        Err(e) => return Err(e),
    }
    proof {
        lemma_valid_is_binding_of_model(*state);
    }
    match &thought_op.kind {
        Phase16ThoughtOpKind::TwoQubit { op } => phase15_apply_two_qubit_op(state, *op),
        Phase16ThoughtOpKind::SingleQubit { target, op } => {
            let (new_q1, new_q2) = match target {
                Phase16QubitTarget::Q1 => {
                    let q1 = match phase13_apply_unitary(&state.q1, *op) {
                        Ok(s) => s,
                        Err(e) => return Err(e),
                    };
                    (q1, state.q2.duplicate())
                },
                Phase16QubitTarget::Q2 => {
                    let q2 = match phase13_apply_unitary(&state.q2, *op) {
                        Ok(s) => s,
                        Err(e) => return Err(e),
                    };
                    (state.q1.duplicate(), q2)
                },
            };
            proof {
                crate::cognition::phase13_qubit_kernel::lemma_rotate_norm(
                    *op,
                    state.q1.x as int,
                    state.q1.y as int,
                    state.q1.z as int,
                );
                crate::cognition::phase13_qubit_kernel::lemma_rotate_norm(
                    *op,
                    state.q2.x as int,
                    state.q2.y as int,
                    state.q2.z as int,
                );
            }
            match phase15_build_two_qubit_state(new_q1, new_q2) {
                Ok(s) => Ok(s),
                Err(e) => {
                    assert(false);
                    Err(e)
                },
            }
        },
    }
}

pub open spec fn degenerate_sig(initial_sig: Seq<char>) -> Seq<char> {
    hash16("initial="@ + initial_sig + "|steps=[]|final="@ + initial_sig)
}

pub open spec fn trajectory_sig(
    initial_sig: Seq<char>,
    steps: Seq<Phase16ThoughtStep>,
    final_sig: Seq<char>,
    kind: Phase16TrajectoryKind,
) -> Seq<char> {
    hash16(
        "initial="@ + initial_sig + "|steps=["@ + join(step_sigs(steps), "|"@) + "]|final="@ + final_sig
            + "|kind="@ + trajectory_kind_name(kind),
    )
}

/// `t` is the trace of `ops` from binding `initial`.
pub open spec fn is_trajectory_of(
    t: Phase16ThoughtTrajectory,
    initial: Phase15TwoQubitState,
    ops: Seq<Phase16ThoughtOp>,
) -> bool {
    let m0 = model_of(initial);
    let fin = model_at(m0, ops, ops.len() as int);
    &&& t.initial_binding_signature@ == initial.binding_signature@
    &&& t.initial_binding_kind == initial.binding_kind
    &&& t.steps@.len() == ops.len()
    &&& t.step_count == ops.len()
    &&& forall|i: int| 0 <= i < ops.len() ==> is_trace_step(#[trigger] t.steps@[i], m0, ops, i)
    &&& t.final_binding_signature@ == model_binding_sig(fin)
    &&& t.final_binding_kind == fin.2
    &&& t.trajectory_kind == classify_trajectory(m0, ops)
    &&& t.trajectory_signature@ == (if ops.len() == 0 {
        degenerate_sig(initial.binding_signature@)
    } else {
        trajectory_sig(
            initial.binding_signature@,
            t.steps@,
            t.final_binding_signature@,
            t.trajectory_kind,
        )
    })
    &&& t.trajectory_well_formed
}

proof fn lemma_trace_steps_ok(
    steps: Seq<Phase16ThoughtStep>,
    m0: TwoQubitModel,
    ops: Seq<Phase16ThoughtOp>,
    i: int,
)
    requires
        0 <= i,
        steps.len() == ops.len(),
        forall|k: int| 0 <= k < ops.len() ==> is_trace_step(#[trigger] steps[k], m0, ops, k),
    ensures
        first_bad_step(steps, i) is None,
    decreases steps.len() - i,
{
    if i < steps.len() {
        assert(is_trace_step(steps[i], m0, ops, i));
        lemma_hash16_len(
            step_sig_input(
                i,
                model_binding_sig(model_at(m0, ops, i)),
                ops[i].op_signature@,
                model_binding_sig(model_at(m0, ops, i + 1)),
            ),
        );
        lemma_trace_steps_ok(steps, m0, ops, i + 1);
    }
}

/// How a trajectory is classified from its steps: without steps it is
/// Degenerate; with a step that reaches an entangled binding it is
/// Entangling; otherwise Convergent when it ends on the binding kind it
/// started from and Divergent when it does not.
pub proof fn lemma_trajectory_kind(t: Phase16ThoughtTrajectory, initial: Phase15TwoQubitState, ops: Seq<Phase16ThoughtOp>)
    requires
        is_trajectory_of(t, initial, ops),
    ensures
        t.steps@.len() == 0 ==> t.trajectory_kind == Phase16TrajectoryKind::Degenerate,
        t.steps@.len() > 0 && (exists|i: int|
            0 <= i < t.steps@.len() && (#[trigger] t.steps@[i]).to_binding_kind
                == Phase15BindingKind::EntanglingOpApplied) ==> t.trajectory_kind == Phase16TrajectoryKind::Entangling,
        t.steps@.len() > 0 && (forall|i: int|
            0 <= i < t.steps@.len() ==> (#[trigger] t.steps@[i]).to_binding_kind
                != Phase15BindingKind::EntanglingOpApplied) ==> t.trajectory_kind == (if t.final_binding_kind
            == t.initial_binding_kind {
            Phase16TrajectoryKind::Convergent
        } else {
            Phase16TrajectoryKind::Divergent
        }),
{
    let m0 = model_of(initial);
    let n = ops.len() as int;
    if t.steps@.len() > 0 {
        if exists|i: int|
            0 <= i < t.steps@.len() && (#[trigger] t.steps@[i]).to_binding_kind == Phase15BindingKind::EntanglingOpApplied {
            let i = choose|i: int|
                0 <= i < t.steps@.len() && (#[trigger] t.steps@[i]).to_binding_kind
                    == Phase15BindingKind::EntanglingOpApplied;
            assert(is_trace_step(t.steps@[i], m0, ops, i));
            assert(model_at(m0, ops, i + 1).2 == Phase15BindingKind::EntanglingOpApplied);
            assert(any_entangling(m0, ops, n));
        } else {
            assert forall|i: int| 0 <= i < n implies (#[trigger] model_at(m0, ops, i + 1)).2
                != Phase15BindingKind::EntanglingOpApplied by {
                assert(is_trace_step(t.steps@[i], m0, ops, i));
            }
            assert(!any_entangling(m0, ops, n));
        }
    }
}

/// A trace from a governed binding passes the trajectory governance checks.
pub proof fn lemma_trajectory_is_governed(
    t: Phase16ThoughtTrajectory,
    initial: Phase15TwoQubitState,
    ops: Seq<Phase16ThoughtOp>,
)
    requires
        valid_two_state(initial),
        is_trajectory_of(t, initial, ops),
    ensures
        trajectory_error(t) is None,
{
    lemma_trace_steps_ok(t.steps@, model_of(initial), ops, 0);
    lemma_hash16_len("initial="@ + initial.binding_signature@ + "|steps=[]|final="@ + initial.binding_signature@);
    lemma_hash16_len(
        "initial="@ + initial.binding_signature@ + "|steps=["@ + join(step_sigs(t.steps@), "|"@)
            + "]|final="@ + t.final_binding_signature@ + "|kind="@ + trajectory_kind_name(
            t.trajectory_kind,
        ),
    );
}

/// Traces a thought path from a governed binding, recording every step.
pub fn phase16_trace_thought_path(
    initial: &Phase15TwoQubitState,
    ops: &[Phase16ThoughtOp],
) -> (r: Result<Phase16ThoughtTrajectory, String>)
    ensures
        match r {
            Ok(t) => valid_two_state(*initial) && is_trajectory_of(t, *initial, ops@),
            Err(e) => two_state_error(*initial) == Some(e@),
        },
{
    match phase15_validate_two_qubit_invariants(initial) {
        Ok(_) => {},
        Err(e) => return Err(e),
    }
    proof {
        lemma_valid_is_binding_of_model(*initial);
    }
    let ghost m0 = model_of(*initial);
    assert(op_kinds(ops@).subrange(0, 0) =~= Seq::<Phase16ThoughtOpKind>::empty());
    if ops.len() == 0 {
        let mut input = text("initial=");
        push_str(&mut input, initial.binding_signature.as_str());
        push_str(&mut input, "|steps=[]|final=");
        push_str(&mut input, initial.binding_signature.as_str());
        let trajectory_signature = hash_text(input.as_str());
        return Ok(
            Phase16ThoughtTrajectory {
                initial_binding_signature: initial.binding_signature.clone(),
                initial_binding_kind: initial.binding_kind,
                steps: Vec::new(),
                step_count: 0,
                final_binding_signature: initial.binding_signature.clone(),
                final_binding_kind: initial.binding_kind,
                trajectory_kind: Phase16TrajectoryKind::Degenerate,
                trajectory_signature,
                trajectory_well_formed: true,
            },
        );
    }
    let mut steps: Vec<Phase16ThoughtStep> = Vec::new();
    let mut current = initial.duplicate();
    let mut any_ent = false;
    let mut index: usize = 0;
    while index < ops.len()
        invariant
            index <= ops@.len(),
            m0 == model_of(*initial),
            valid_two_state(current),
            is_binding_of(current, model_at(m0, ops@, index as int)),
            steps@.len() == index,
            forall|i: int| 0 <= i < index ==> is_trace_step(#[trigger] steps@[i], m0, ops@, i),
            any_ent == any_entangling(m0, ops@, index as int),
        decreases ops@.len() - index,
    {
        let thought_op = &ops[index];
        proof {
            lemma_valid_is_binding_of_model(current);
            let pre = op_kinds(ops@).subrange(0, index as int);
            let post = op_kinds(ops@).subrange(0, index + 1);
            assert(post.drop_last() =~= pre);
            assert(post.last() == ops@[index as int].kind);
        }
        let from_sig = current.binding_signature.clone();
        let next = match phase16_apply_thought_op(&current, thought_op) {
            Ok(s) => s,
            Err(e) => {
                assert(false);
                return Err(e);
            },
        };
        if next.binding_kind == Phase15BindingKind::EntanglingOpApplied {
            any_ent = true;
        }
        let mut input = text("step=");
        push_usize(&mut input, index);
        push_str(&mut input, "|from=");
        push_str(&mut input, from_sig.as_str());
        push_str(&mut input, "|op=");
        push_str(&mut input, thought_op.op_signature.as_str());
        push_str(&mut input, "|to=");
        push_str(&mut input, next.binding_signature.as_str());
        let step_signature = hash_text(input.as_str());
        let step = Phase16ThoughtStep {
            step_index: index,
            from_binding_signature: from_sig,
            op_signature: thought_op.op_signature.clone(),
            to_binding_signature: next.binding_signature.clone(),
            to_binding_kind: next.binding_kind,
            step_signature,
        };
        steps.push(step);
        current = next;
        proof {
            assert(is_trace_step(steps@[index as int], m0, ops@, index as int));
            assert forall|i: int| 0 <= i < index + 1 implies is_trace_step(
                #[trigger] steps@[i],
                m0,
                ops@,
                i,
            ) by {}
            if !any_entangling(m0, ops@, index as int) && model_at(m0, ops@, index + 1).2
                != Phase15BindingKind::EntanglingOpApplied {
                assert forall|i: int|
                    0 <= i < index + 1 implies (#[trigger] model_at(m0, ops@, i + 1)).2
                    != Phase15BindingKind::EntanglingOpApplied by {
                    if i < index {
                        assert(!(0 <= i < index && model_at(m0, ops@, i + 1).2
                            == Phase15BindingKind::EntanglingOpApplied));
                    }
                }
            }
        }
        index = index + 1;
    }
    let final_binding_kind = current.binding_kind;
    let final_binding_signature = current.binding_signature.clone();
    let trajectory_kind = if any_ent {
        Phase16TrajectoryKind::Entangling
    } else if final_binding_kind == initial.binding_kind {
        Phase16TrajectoryKind::Convergent
    } else {
        Phase16TrajectoryKind::Divergent
    };
    let mut sigs: Vec<String> = Vec::new();
    let mut k: usize = 0;
    while k < steps.len()
        invariant
            k <= steps@.len(),
            sigs@.len() == k,
            forall|m: int| 0 <= m < k ==> #[trigger] sigs@[m]@ == steps@[m].step_signature@,
        decreases steps@.len() - k,
    {
        sigs.push(steps[k].step_signature.clone());
        k = k + 1;
    }
    assert(views(sigs@) =~= step_sigs(steps@));
    let joined = join_strings(&sigs, "|");
    let mut input = text("initial=");
    push_str(&mut input, initial.binding_signature.as_str());
    push_str(&mut input, "|steps=[");
    push_str(&mut input, joined.as_str());
    push_str(&mut input, "]|final=");
    push_str(&mut input, final_binding_signature.as_str());
    push_str(&mut input, "|kind=");
    push_str(&mut input, phase16_trajectory_kind_name(trajectory_kind));
    let trajectory_signature = hash_text(input.as_str());
    Ok(
        Phase16ThoughtTrajectory {
            initial_binding_signature: initial.binding_signature.clone(),
            initial_binding_kind: initial.binding_kind,
            steps,
            step_count: ops.len(),
            final_binding_signature,
            final_binding_kind,
            trajectory_kind,
            trajectory_signature,
            trajectory_well_formed: true,
        },
    )
}

/// Checks the trajectory governance invariants.
pub fn phase16_validate_trajectory_invariants(trajectory: &Phase16ThoughtTrajectory) -> (r: Result<
    (),
    String,
>)
    ensures
        match r {
            Ok(_) => trajectory_error(*trajectory) is None,
            Err(e) => trajectory_error(*trajectory) == Some(e@),
        },
{
    if !trajectory.trajectory_well_formed {
        return Err(text("phase16_trajectory_marked_malformed"));
    }
    if is_blank(&trajectory.trajectory_signature) {
        return Err(text("phase16_trajectory_signature_empty"));
    }
    if is_blank(&trajectory.initial_binding_signature) {
        return Err(text("phase16_initial_binding_signature_empty"));
    }
    if trajectory.step_count != trajectory.steps.len() {
        let mut e = text("phase16_step_count_mismatch: declared ");
        push_usize(&mut e, trajectory.step_count);
        push_str(&mut e, " actual ");
        push_usize(&mut e, trajectory.steps.len());
        return Err(e);
    }
    let mut i: usize = 0;
    while i < trajectory.steps.len()
        invariant
            i <= trajectory.steps@.len(),
            trajectory_error(*trajectory) == first_bad_step(trajectory.steps@, i as int),
        decreases trajectory.steps@.len() - i,
    {
        let step = &trajectory.steps[i];
        if step.step_index != i {
            let mut e = text("phase16_step_index_mismatch: expected ");
            push_usize(&mut e, i);
            push_str(&mut e, " got ");
            push_usize(&mut e, step.step_index);
            return Err(e);
        }
        if is_blank(&step.step_signature) {
            let mut e = text("phase16_step_signature_empty at step ");
            push_usize(&mut e, i);
            return Err(e);
        }
        i = i + 1;
    }
    Ok(())
}

/// How many steps of a path end in an entangled binding.
pub open spec fn entangling_steps(steps: Seq<Phase16ThoughtStep>) -> nat
    decreases steps.len(),
{
    if steps.len() == 0 {
        0
    } else {
        entangling_steps(steps.drop_last()) + if steps.last().to_binding_kind
            == Phase15BindingKind::EntanglingOpApplied {
            1nat
        } else {
            0nat
        }
    }
}

/// The telemetry line published for a thought trajectory.
pub open spec fn trajectory_line(t: Phase16ThoughtTrajectory) -> Seq<char> {
    "initial_sig="@ + t.initial_binding_signature@ + ":final_sig="@ + t.final_binding_signature@
        + ":kind="@ + trajectory_kind_name(t.trajectory_kind) + ":steps="@ + dec_nat(t.step_count as nat)
        + ":entangling_steps="@ + dec_nat(entangling_steps(t.steps@)) + ":trajectory_sig="@
        + t.trajectory_signature@ + ":well_formed="@ + bool_text(t.trajectory_well_formed)
}

/// The telemetry line for a thought trajectory.
pub fn phase16_trajectory_telemetry_line(trajectory: &Phase16ThoughtTrajectory) -> (line: String)
    ensures
        line@ == trajectory_line(*trajectory),
{
    let mut n: usize = 0;
    let mut i: usize = 0;
    while i < trajectory.steps.len()
        invariant
            i <= trajectory.steps@.len(),
            n == entangling_steps(trajectory.steps@.subrange(0, i as int)),
            n <= i,
        decreases trajectory.steps@.len() - i,
    {
        proof {
            assert(trajectory.steps@.subrange(0, i + 1).drop_last() =~= trajectory.steps@.subrange(0, i as int));
        }
        if trajectory.steps[i].to_binding_kind == Phase15BindingKind::EntanglingOpApplied {
            n = n + 1;
        }
        i = i + 1;
    }
    proof {
        assert(trajectory.steps@.subrange(0, trajectory.steps@.len() as int) =~= trajectory.steps@);
    }
    let mut line = text("initial_sig=");
    push_str(&mut line, trajectory.initial_binding_signature.as_str());
    push_str(&mut line, ":final_sig=");
    push_str(&mut line, trajectory.final_binding_signature.as_str());
    push_str(&mut line, ":kind=");
    push_str(&mut line, phase16_trajectory_kind_name(trajectory.trajectory_kind));
    push_str(&mut line, ":steps=");
    push_usize(&mut line, trajectory.step_count);
    push_str(&mut line, ":entangling_steps=");
    push_usize(&mut line, n);
    push_str(&mut line, ":trajectory_sig=");
    push_str(&mut line, trajectory.trajectory_signature.as_str());
    push_str(&mut line, ":well_formed=");
    push_bool(&mut line, trajectory.trajectory_well_formed);
    line
}

} // verus!
