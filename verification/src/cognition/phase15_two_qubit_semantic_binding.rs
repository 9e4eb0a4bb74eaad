//! Two-qubit semantic bindings: product states of two governed qubits, their
//! z-correlation class, and the swap / controlled two-qubit operators.
use vstd::prelude::*;
use crate::cognition::phase13_qubit_kernel::{
    is_built_state, phase13_apply_unitary, phase13_validate_qubit_state_invariants, rotate,
    state_error, state_sig, valid_state, Phase13QubitState, Phase13QubitUnaryOp,
};
use crate::text::{bool_text, push_bool, dec_int, hash16, hash_text, is_blank, join, join_strings, push_str,
    push_usize, same_text, text, views};

verus! {

/// How the two qubits are related.
#[derive(Debug, Clone, Copy, PartialEq, Eq, Structural)]
pub enum Phase15BindingKind {
    /// No Z-axis correlation and no entangling op applied.
    Separable,
    /// Both qubits share the same Z-axis orientation.
    Correlated,
    /// Qubits have opposite Z-axis orientations.
    AntiCorrelated,
    /// A two-qubit entangling gate was applied; binding is history-dependent.
    EntanglingOpApplied,
}

/// A governed two-qubit semantic state binding.
#[derive(Debug, Clone, PartialEq, Eq)]
pub struct Phase15TwoQubitState {
    pub q1: Phase13QubitState,
    pub q2: Phase13QubitState,
    pub binding_kind: Phase15BindingKind,
    /// Canonical hash of (q1_sig, q2_sig, binding_kind, op_history).
    pub binding_signature: String,
    /// Hash of the sequence of two-qubit ops applied so far.
    pub op_history_signature: String,
    pub state_well_formed: bool,
}

/// Two-qubit operators.
#[derive(Debug, Clone, Copy, PartialEq, Eq, Structural)]
pub enum Phase15TwoQubitOp {
    /// Exchange q1 and q2.
    Swap,
    /// Apply PauliZ to q2 when q1.z > 0. Entangling.
    ControlledZ,
    /// Apply PauliX to q2 when q1.z > 0. Entangling.
    ControlledX,
}

/// Result of applying a sequence of two-qubit ops to an initial binding.
#[derive(Debug, Clone, PartialEq, Eq)]
pub struct Phase15TwoQubitSequenceResult {
    pub initial_binding_signature: String,
    pub final_state: Phase15TwoQubitState,
    pub op_count: usize,
    /// Hash covering initial state, op list, and final state.
    pub sequence_signature: String,
}

// ── model ────────────────────────────────────────────────────────────────────

pub open spec fn binding_kind_name(k: Phase15BindingKind) -> Seq<char> {
    match k {
        Phase15BindingKind::Separable => "Separable"@,
        Phase15BindingKind::Correlated => "Correlated"@,
        Phase15BindingKind::AntiCorrelated => "AntiCorrelated"@,
        Phase15BindingKind::EntanglingOpApplied => "EntanglingOpApplied"@,
    }
}

pub open spec fn two_op_name(op: Phase15TwoQubitOp) -> Seq<char> {
    match op {
        Phase15TwoQubitOp::Swap => "Swap"@,
        Phase15TwoQubitOp::ControlledZ => "ControlledZ"@,
        Phase15TwoQubitOp::ControlledX => "ControlledX"@,
    }
}

/// The binding class of two qubits with z-components `z1`, `z2`.
pub open spec fn classify(z1: int, z2: int, entangling: bool) -> Phase15BindingKind {
    if entangling {
        Phase15BindingKind::EntanglingOpApplied
    } else if z1 * z2 > 0 {
        Phase15BindingKind::Correlated
    } else if z1 * z2 < 0 {
        Phase15BindingKind::AntiCorrelated
    } else {
        Phase15BindingKind::Separable
    }
}

pub open spec fn binding_sig(
    q1_sig: Seq<char>,
    q2_sig: Seq<char>,
    kind: Phase15BindingKind,
    history: Seq<char>,
) -> Seq<char> {
    hash16("q1="@ + q1_sig + "|q2="@ + q2_sig + "|kind="@ + binding_kind_name(kind) + "|history="@ + history)
}

/// The history signature of a freshly built binding.
pub open spec fn initial_history() -> Seq<char> {
    hash16("initial"@)
}

/// A binding in the abstract: the two Bloch vectors, the class and the op history.
pub type TwoQubitModel = ((int, int, int), (int, int, int), Phase15BindingKind, Seq<char>);

/// `s` is the governed binding of model `m`.
pub open spec fn is_binding_of(s: Phase15TwoQubitState, m: TwoQubitModel) -> bool {
    &&& is_built_state(s.q1, m.0.0, m.0.1, m.0.2)
    &&& is_built_state(s.q2, m.1.0, m.1.1, m.1.2)
    &&& s.binding_kind == m.2
    &&& s.op_history_signature@ == m.3
    &&& s.binding_signature@ == binding_sig(
        state_sig(m.0.0, m.0.1, m.0.2),
        state_sig(m.1.0, m.1.1, m.1.2),
        m.2,
        m.3,
    )
    &&& s.state_well_formed
}

pub open spec fn model_of(s: Phase15TwoQubitState) -> TwoQubitModel {
    (
        (s.q1.x as int, s.q1.y as int, s.q1.z as int),
        (s.q2.x as int, s.q2.y as int, s.q2.z as int),
        s.binding_kind,
        s.op_history_signature@,
    )
}

/// The model of a freshly built product binding.
pub open spec fn initial_model(a: (int, int, int), b: (int, int, int)) -> TwoQubitModel {
    (a, b, classify(a.2, b.2, false), initial_history())
}

/// The model after one two-qubit operator.
pub open spec fn two_step(m: TwoQubitModel, op: Phase15TwoQubitOp) -> TwoQubitModel {
    let (a, b, entangling) = match op {
        Phase15TwoQubitOp::Swap => (m.1, m.0, false),
        Phase15TwoQubitOp::ControlledZ => (m.0, if m.0.2 > 0 {
            rotate(Phase13QubitUnaryOp::PauliZ, m.1.0, m.1.1, m.1.2)
        } else {
            m.1
        }, true),
        Phase15TwoQubitOp::ControlledX => (m.0, if m.0.2 > 0 {
            rotate(Phase13QubitUnaryOp::PauliX, m.1.0, m.1.1, m.1.2)
        } else {
            m.1
        }, true),
    };
    (a, b, classify(a.2, b.2, entangling), hash16("prev="@ + m.3 + "|op="@ + two_op_name(op)))
}

/// The model after a sequence of two-qubit operators.
pub open spec fn two_steps(m: TwoQubitModel, ops: Seq<Phase15TwoQubitOp>) -> TwoQubitModel
    decreases ops.len(),
{
    if ops.len() == 0 {
        m
    } else {
        two_step(two_steps(m, ops.drop_last()), ops.last())
    }
}

pub open spec fn model_binding_sig(m: TwoQubitModel) -> Seq<char> {
    binding_sig(state_sig(m.0.0, m.0.1, m.0.2), state_sig(m.1.0, m.1.1, m.1.2), m.2, m.3)
}

/// The verdict of `phase15_validate_two_qubit_invariants`.
pub open spec fn two_state_error(s: Phase15TwoQubitState) -> Option<Seq<char>> {
    if !s.state_well_formed {
        Some("phase15_state_marked_malformed"@)
    } else if state_error(s.q1) is Some {
        state_error(s.q1)
    } else if state_error(s.q2) is Some {
        state_error(s.q2)
    } else if s.binding_signature@.len() == 0 {
        Some("phase15_binding_signature_empty"@)
    } else if s.op_history_signature@.len() == 0 {
        Some("phase15_op_history_signature_empty"@)
    } else if s.binding_signature@ != binding_sig(
        s.q1.state_signature@,
        s.q2.state_signature@,
        s.binding_kind,
        s.op_history_signature@,
    ) {
        Some("phase15_binding_signature_mismatch"@)
    } else {
        None
    }
}

pub open spec fn valid_two_state(s: Phase15TwoQubitState) -> bool {
    two_state_error(s) is None
}

/// A valid binding is exactly the governed binding of its own model.
pub proof fn lemma_valid_is_binding_of_model(s: Phase15TwoQubitState)
    requires
        valid_two_state(s),
    ensures
        is_binding_of(s, model_of(s)),
        -1 <= s.q1.z <= 1,
        -1 <= s.q2.z <= 1,
{
    crate::cognition::phase13_qubit_kernel::lemma_unit_components(
        s.q1.x as int,
        s.q1.y as int,
        s.q1.z as int,
    );
    crate::cognition::phase13_qubit_kernel::lemma_unit_components(
        s.q2.x as int,
        s.q2.y as int,
        s.q2.z as int,
    );
}

/// A governed binding of any model whose vectors have unit length is valid.
pub proof fn lemma_binding_of_is_valid(s: Phase15TwoQubitState, m: TwoQubitModel)
    requires
        is_binding_of(s, m),
        crate::cognition::phase13_qubit_kernel::norm_sq(m.0.0, m.0.1, m.0.2) == 1,
        crate::cognition::phase13_qubit_kernel::norm_sq(m.1.0, m.1.1, m.1.2) == 1,
        m.3.len() > 0,
    ensures
        valid_two_state(s),
{
    crate::text::lemma_hash16_len(
        "q1="@ + state_sig(m.0.0, m.0.1, m.0.2) + "|q2="@ + state_sig(m.1.0, m.1.1, m.1.2)
            + "|kind="@ + binding_kind_name(m.2) + "|history="@ + m.3,
    );
}

/// Every step keeps both Bloch vectors of unit length.
pub proof fn lemma_two_steps_norm(m: TwoQubitModel, ops: Seq<Phase15TwoQubitOp>)
    requires
        crate::cognition::phase13_qubit_kernel::norm_sq(m.0.0, m.0.1, m.0.2) == 1,
        crate::cognition::phase13_qubit_kernel::norm_sq(m.1.0, m.1.1, m.1.2) == 1,
    ensures
        ({
            let r = two_steps(m, ops);
            &&& crate::cognition::phase13_qubit_kernel::norm_sq(r.0.0, r.0.1, r.0.2) == 1
            &&& crate::cognition::phase13_qubit_kernel::norm_sq(r.1.0, r.1.1, r.1.2) == 1
            &&& (ops.len() > 0 ==> r.3.len() == 16)
            &&& (ops.len() == 0 ==> r.3 == m.3)
        }),
    decreases ops.len(),
{
    if ops.len() > 0 {
        let p = two_steps(m, ops.drop_last());
        lemma_two_steps_norm(m, ops.drop_last());
        crate::cognition::phase13_qubit_kernel::lemma_rotate_norm(
            Phase13QubitUnaryOp::PauliZ,
            p.1.0,
            p.1.1,
            p.1.2,
        );
        crate::cognition::phase13_qubit_kernel::lemma_rotate_norm(
            Phase13QubitUnaryOp::PauliX,
            p.1.0,
            p.1.1,
            p.1.2,
        );
        crate::text::lemma_hash16_len("prev="@ + p.3 + "|op="@ + two_op_name(ops.last()));
    }
}

/// `s` is what applying `op` to the binding `state` gives.
pub open spec fn two_qubit_result(state: Phase15TwoQubitState, op: Phase15TwoQubitOp, s: Phase15TwoQubitState) -> bool {
    valid_two_state(state) && is_binding_of(s, two_step(model_of(state), op)) && valid_two_state(s)
}

/// What each two-qubit operator does to the two Bloch vectors: Swap
/// exchanges them; ControlledZ and ControlledX leave the control q1 alone
/// and, exactly when q1 points up (z > 0), turn q2 by Pauli Z, (x, y, z) to
/// (-x, -y, z), or by Pauli X, (x, y, z) to (x, -y, -z); otherwise q2 stays.
/// Swap yields a product binding, the controlled operators an entangling one.
pub proof fn lemma_two_qubit_ops(state: Phase15TwoQubitState, op: Phase15TwoQubitOp, s: Phase15TwoQubitState)
    requires
        two_qubit_result(state, op, s),
    ensures
        op == Phase15TwoQubitOp::Swap ==> s.q1.x == state.q2.x && s.q1.y == state.q2.y && s.q1.z == state.q2.z
            && s.q2.x == state.q1.x && s.q2.y == state.q1.y && s.q2.z == state.q1.z,
        op != Phase15TwoQubitOp::Swap ==> s.q1.x == state.q1.x && s.q1.y == state.q1.y && s.q1.z == state.q1.z
            && s.binding_kind == Phase15BindingKind::EntanglingOpApplied,
        op == Phase15TwoQubitOp::ControlledZ && state.q1.z > 0 ==> s.q2.x == -state.q2.x && s.q2.y
            == -state.q2.y && s.q2.z == state.q2.z,
        op == Phase15TwoQubitOp::ControlledX && state.q1.z > 0 ==> s.q2.x == state.q2.x && s.q2.y
            == -state.q2.y && s.q2.z == -state.q2.z,
        op != Phase15TwoQubitOp::Swap && state.q1.z <= 0 ==> s.q2.x == state.q2.x && s.q2.y == state.q2.y
            && s.q2.z == state.q2.z,
{
}

/// After a Swap the binding is classified by the two z components: the same
/// strict sign is Correlated, opposite strict signs AntiCorrelated, and a
/// zero on either side Separable.
pub proof fn lemma_swap_classifies(state: Phase15TwoQubitState, s: Phase15TwoQubitState)
    requires
        two_qubit_result(state, Phase15TwoQubitOp::Swap, s),
    ensures
        (state.q1.z > 0 && state.q2.z > 0) || (state.q1.z < 0 && state.q2.z < 0) ==> s.binding_kind
            == Phase15BindingKind::Correlated,
        (state.q1.z > 0 && state.q2.z < 0) || (state.q1.z < 0 && state.q2.z > 0) ==> s.binding_kind
            == Phase15BindingKind::AntiCorrelated,
        state.q1.z == 0 || state.q2.z == 0 ==> s.binding_kind == Phase15BindingKind::Separable,
{
    let a = state.q2.z as int;
    let b = state.q1.z as int;
    assert((a > 0 && b > 0) || (a < 0 && b < 0) ==> a * b > 0) by (nonlinear_arith);
    assert((a > 0 && b < 0) || (a < 0 && b > 0) ==> a * b < 0) by (nonlinear_arith);
    assert(a == 0 || b == 0 ==> a * b == 0) by (nonlinear_arith);
}

// ── kernel ───────────────────────────────────────────────────────────────────

fn phase15_kind_name(k: Phase15BindingKind) -> (s: &'static str)
    ensures
        s@ == binding_kind_name(k),
{
    match k {
        Phase15BindingKind::Separable => "Separable",
        Phase15BindingKind::Correlated => "Correlated",
        Phase15BindingKind::AntiCorrelated => "AntiCorrelated",
        Phase15BindingKind::EntanglingOpApplied => "EntanglingOpApplied",
    }
}

fn phase15_op_name(op: Phase15TwoQubitOp) -> (s: &'static str)
    ensures
        s@ == two_op_name(op),
{
    match op {
        Phase15TwoQubitOp::Swap => "Swap",
        Phase15TwoQubitOp::ControlledZ => "ControlledZ",
        Phase15TwoQubitOp::ControlledX => "ControlledX",
    }
}

fn phase15_classify_binding(
    q1: &Phase13QubitState,
    q2: &Phase13QubitState,
    entangling: bool,
) -> (k: Phase15BindingKind)
    requires
        -1 <= q1.z <= 1,
        -1 <= q2.z <= 1,
    ensures
        k == classify(q1.z as int, q2.z as int, entangling),
{
    if entangling {
        return Phase15BindingKind::EntanglingOpApplied;
    }
    let z_product: i16 = if q1.z == 0 || q2.z == 0 {
        0
    } else if q1.z == q2.z {
        1
    } else {
        -1
    };
    assert(z_product == (q1.z as int) * (q2.z as int)) by (nonlinear_arith)
        requires
            -1 <= q1.z <= 1,
            -1 <= q2.z <= 1,
            z_product == (if q1.z == 0 || q2.z == 0 { 0 } else if q1.z == q2.z { 1 } else { -1 }),
    ;
    if z_product > 0 {
        Phase15BindingKind::Correlated
    } else if z_product < 0 {
        Phase15BindingKind::AntiCorrelated
    } else {
        Phase15BindingKind::Separable
    }
}

fn phase15_compute_binding_signature(
    q1: &Phase13QubitState,
    q2: &Phase13QubitState,
    binding_kind: Phase15BindingKind,
    op_history: &str,
) -> (s: String)
    ensures
        s@ == binding_sig(q1.state_signature@, q2.state_signature@, binding_kind, op_history@),
{
    let mut input = text("q1=");
    push_str(&mut input, q1.state_signature.as_str());
    push_str(&mut input, "|q2=");
    push_str(&mut input, q2.state_signature.as_str());
    push_str(&mut input, "|kind=");
    push_str(&mut input, phase15_kind_name(binding_kind));
    push_str(&mut input, "|history=");
    push_str(&mut input, op_history);
    hash_text(input.as_str())
}

fn phase15_assemble(
    q1: Phase13QubitState,
    q2: Phase13QubitState,
    binding_kind: Phase15BindingKind,
    op_history_signature: String,
) -> (s: Phase15TwoQubitState)
    ensures
        s.q1 == q1,
        s.q2 == q2,
        s.binding_kind == binding_kind,
        s.op_history_signature == op_history_signature,
        s.binding_signature@ == binding_sig(
            q1.state_signature@,
            q2.state_signature@,
            binding_kind,
            op_history_signature@,
        ),
        s.state_well_formed,
{
    let binding_signature = phase15_compute_binding_signature(
        &q1,
        &q2,
        binding_kind,
        op_history_signature.as_str(),
    );
    Phase15TwoQubitState {
        q1,
        q2,
        binding_kind,
        binding_signature,
        op_history_signature,
        state_well_formed: true,
    }
}

/// The initial product binding of two governed qubits.
pub fn phase15_build_two_qubit_state(q1: Phase13QubitState, q2: Phase13QubitState) -> (r: Result<
    Phase15TwoQubitState,
    String,
>)
    ensures
        match r {
            Ok(s) => valid_state(q1) && valid_state(q2) && s.q1 == q1 && s.q2 == q2
                && is_binding_of(
                s,
                initial_model(
                    (q1.x as int, q1.y as int, q1.z as int),
                    (q2.x as int, q2.y as int, q2.z as int),
                ),
            ) && valid_two_state(s),
            Err(e) => (state_error(q1) is Some && state_error(q1) == Some(e@)) || (valid_state(q1)
                && state_error(q2) == Some(e@)),
        },
{
    match phase13_validate_qubit_state_invariants(&q1) {
        Ok(_) => {},
        Err(e) => return Err(e),
    }
    match phase13_validate_qubit_state_invariants(&q2) {
        Ok(_) => {},
        Err(e) => return Err(e),
    }
    proof {
        crate::cognition::phase13_qubit_kernel::lemma_unit_components(
            q1.x as int,
            q1.y as int,
            q1.z as int,
        );
        crate::cognition::phase13_qubit_kernel::lemma_unit_components(
            q2.x as int,
            q2.y as int,
            q2.z as int,
        );
    }
    let binding_kind = phase15_classify_binding(&q1, &q2, false);
    let op_history = hash_text("initial");
    let s = phase15_assemble(q1, q2, binding_kind, op_history);
    proof {
        lemma_binding_of_is_valid(s, model_of(s));
    }
    Ok(s)
}

/// Applies one two-qubit operator to a governed binding.
pub fn phase15_apply_two_qubit_op(state: &Phase15TwoQubitState, op: Phase15TwoQubitOp) -> (r: Result<
    Phase15TwoQubitState,
    String,
>)
    ensures
        match r {
            Ok(s) => two_qubit_result(*state, op, s),
            Err(e) => two_state_error(*state) == Some(e@),
        },
{
    match phase15_validate_two_qubit_invariants(state) {
        Ok(_) => {},
        Err(e) => return Err(e),
    }
    proof {
        lemma_valid_is_binding_of_model(*state);
        crate::cognition::phase13_qubit_kernel::lemma_rotate_norm(
            Phase13QubitUnaryOp::PauliZ,
            state.q2.x as int,
            state.q2.y as int,
            state.q2.z as int,
        );
        crate::cognition::phase13_qubit_kernel::lemma_rotate_norm(
            Phase13QubitUnaryOp::PauliX,
            state.q2.x as int,
            state.q2.y as int,
            state.q2.z as int,
        );
        crate::text::lemma_hash16_len(
            "prev="@ + state.op_history_signature@ + "|op="@ + two_op_name(op),
        );
    }
    let (new_q1, new_q2, entangling) = match op {
        Phase15TwoQubitOp::Swap => (state.q2.duplicate(), state.q1.duplicate(), false),
        Phase15TwoQubitOp::ControlledZ => {
            let new_q2 = if state.q1.z > 0 {
                match phase13_apply_unitary(&state.q2, Phase13QubitUnaryOp::PauliZ) {
                    Ok(s) => s,
                    Err(e) => return Err(e),
                }
            } else {
                state.q2.duplicate()
            };
            (state.q1.duplicate(), new_q2, true)
        },
        Phase15TwoQubitOp::ControlledX => {
            let new_q2 = if state.q1.z > 0 {
                match phase13_apply_unitary(&state.q2, Phase13QubitUnaryOp::PauliX) {
                    Ok(s) => s,
                    Err(e) => return Err(e),
                }
            } else {
                state.q2.duplicate()
            };
            (state.q1.duplicate(), new_q2, true)
        },
    };
    proof {
        crate::cognition::phase13_qubit_kernel::lemma_unit_components(
            new_q1.x as int,
            new_q1.y as int,
            new_q1.z as int,
        );
        crate::cognition::phase13_qubit_kernel::lemma_unit_components(
            new_q2.x as int,
            new_q2.y as int,
            new_q2.z as int,
        );
    }
    let binding_kind = phase15_classify_binding(&new_q1, &new_q2, entangling);
    let mut input = text("prev=");
    push_str(&mut input, state.op_history_signature.as_str());
    push_str(&mut input, "|op=");
    push_str(&mut input, phase15_op_name(op));
    let new_history = hash_text(input.as_str());
    let s = phase15_assemble(new_q1, new_q2, binding_kind, new_history);
    proof {
        let m = two_step(model_of(*state), op);
        assert(is_binding_of(s, m));
        lemma_binding_of_is_valid(s, m);
    }
    Ok(s)
}

impl Phase15TwoQubitState {
    /// A field-for-field copy.
    pub fn duplicate(&self) -> (r: Self)
        ensures
            r == *self,
    {
        Phase15TwoQubitState {
            q1: self.q1.duplicate(),
            q2: self.q2.duplicate(),
            binding_kind: self.binding_kind,
            binding_signature: self.binding_signature.clone(),
            op_history_signature: self.op_history_signature.clone(),
            state_well_formed: self.state_well_formed,
        }
    }
}

/// The trace text whose hash is a sequence's signature.
pub open spec fn sequence_sig_input(
    initial_sig: Seq<char>,
    ops: Seq<Phase15TwoQubitOp>,
    final_sig: Seq<char>,
) -> Seq<char> {
    "initial="@ + initial_sig + "|ops=["@ + join(ops.map_values(|o: Phase15TwoQubitOp| two_op_name(o)), ","@)
        + "]|final="@ + final_sig + "|count="@ + dec_int(ops.len() as int)
}

/// Applies a sequence of two-qubit operators to a governed binding.
pub fn phase15_apply_two_qubit_sequence(
    initial: &Phase15TwoQubitState,
    ops: &[Phase15TwoQubitOp],
) -> (r: Result<Phase15TwoQubitSequenceResult, String>)
    ensures
        match r {
            Ok(res) => valid_two_state(*initial) && is_binding_of(
                res.final_state,
                two_steps(model_of(*initial), ops@),
            ) && res.initial_binding_signature@ == initial.binding_signature@ && res.op_count
                == ops@.len() && res.sequence_signature@ == hash16(
                sequence_sig_input(
                    initial.binding_signature@,
                    ops@,
                    res.final_state.binding_signature@,
                ),
            ),
            Err(e) => two_state_error(*initial) == Some(e@),
        },
{
    match phase15_validate_two_qubit_invariants(initial) {
        Ok(_) => {},
        Err(e) => return Err(e),
    }
    proof {
        lemma_valid_is_binding_of_model(*initial);
    }
    let ghost m0 = model_of(*initial);
    let mut current = initial.duplicate();
    let mut names: Vec<String> = Vec::new();
    let mut i: usize = 0;
    assert(ops@.subrange(0, 0) =~= Seq::<Phase15TwoQubitOp>::empty());
    while i < ops.len()
        invariant
            i <= ops@.len(),
            valid_two_state(current),
            is_binding_of(current, two_steps(m0, ops@.subrange(0, i as int))),
            names@.len() == i,
            forall|k: int| 0 <= k < i ==> #[trigger] names@[k]@ == two_op_name(ops@[k]),
        decreases ops@.len() - i,
    {
        proof {
            lemma_valid_is_binding_of_model(current);
            let post = ops@.subrange(0, i + 1);
            assert(post.drop_last() =~= ops@.subrange(0, i as int));
        }
        let next = match phase15_apply_two_qubit_op(&current, ops[i]) {
            Ok(s) => s,
            Err(e) => {
                assert(false);
                return Err(e);
            },
        };
        current = next;
        names.push(text(phase15_op_name(ops[i])));
        i = i + 1;
    }
    assert(ops@.subrange(0, ops@.len() as int) =~= ops@);
    assert(views(names@) =~= ops@.map_values(|o: Phase15TwoQubitOp| two_op_name(o)));
    let joined = join_strings(&names, ",");
    let mut input = text("initial=");
    push_str(&mut input, initial.binding_signature.as_str());
    push_str(&mut input, "|ops=[");
    push_str(&mut input, joined.as_str());
    push_str(&mut input, "]|final=");
    push_str(&mut input, current.binding_signature.as_str());
    push_str(&mut input, "|count=");
    push_usize(&mut input, ops.len());
    let sequence_signature = hash_text(input.as_str());
    Ok(
        Phase15TwoQubitSequenceResult {
            initial_binding_signature: initial.binding_signature.clone(),
            final_state: current,
            op_count: ops.len(),
            sequence_signature,
        },
    )
}

/// Checks that a binding is exactly the governed binding of its parts.
pub fn phase15_validate_two_qubit_invariants(state: &Phase15TwoQubitState) -> (r: Result<(), String>)
    ensures
        match r {
            Ok(_) => two_state_error(*state) is None,
            Err(e) => two_state_error(*state) == Some(e@),
        },
{
    if !state.state_well_formed {
        return Err(text("phase15_state_marked_malformed"));
    }
    match phase13_validate_qubit_state_invariants(&state.q1) {
        Ok(_) => {},
        Err(e) => return Err(e),
    }
    match phase13_validate_qubit_state_invariants(&state.q2) {
        Ok(_) => {},
        Err(e) => return Err(e),
    }
    if is_blank(&state.binding_signature) {
        return Err(text("phase15_binding_signature_empty"));
    }
    if is_blank(&state.op_history_signature) {
        return Err(text("phase15_op_history_signature_empty"));
    }
    let expected = phase15_compute_binding_signature(
        &state.q1,
        &state.q2,
        state.binding_kind,
        state.op_history_signature.as_str(),
    );
    if !same_text(&expected, &state.binding_signature) {
        return Err(text("phase15_binding_signature_mismatch"));
    }
    Ok(())
}

/// The fixed signature text of a two-qubit operator.
pub open spec fn two_op_signature(op: Phase15TwoQubitOp) -> Seq<char> {
    match op {
        Phase15TwoQubitOp::Swap => "SWAP:[q1<->q2]"@,
        Phase15TwoQubitOp::ControlledZ => "CZ:[q1.z>0?Z(q2):I]"@,
        Phase15TwoQubitOp::ControlledX => "CX:[q1.z>0?X(q2):I]"@,
    }
}

/// The telemetry line published for a two-qubit state.
pub open spec fn binding_line(st: Phase15TwoQubitState) -> Seq<char> {
    "q1_sig="@ + st.q1.state_signature@ + ":q2_sig="@ + st.q2.state_signature@ + ":binding="@
        + binding_kind_name(st.binding_kind) + ":binding_sig="@ + st.binding_signature@
        + ":op_history="@ + st.op_history_signature@ + ":well_formed="@ + bool_text(st.state_well_formed)
}

/// The telemetry line published for a two-qubit operator.
pub open spec fn op_line(op: Phase15TwoQubitOp) -> Seq<char> {
    "op="@ + two_op_name(op) + ":signature="@ + two_op_signature(op)
}

fn phase15_op_signature(op: Phase15TwoQubitOp) -> (s: &'static str)
    ensures
        s@ == two_op_signature(op),
{
    match op {
        Phase15TwoQubitOp::Swap => "SWAP:[q1<->q2]",
        Phase15TwoQubitOp::ControlledZ => "CZ:[q1.z>0?Z(q2):I]",
        Phase15TwoQubitOp::ControlledX => "CX:[q1.z>0?X(q2):I]",
    }
}

/// The telemetry line for a two-qubit state.
pub fn phase15_binding_telemetry_line(state: &Phase15TwoQubitState) -> (line: String)
    ensures
        line@ == binding_line(*state),
{
    let mut line = text("q1_sig=");
    push_str(&mut line, state.q1.state_signature.as_str());
    push_str(&mut line, ":q2_sig=");
    push_str(&mut line, state.q2.state_signature.as_str());
    push_str(&mut line, ":binding=");
    push_str(&mut line, phase15_kind_name(state.binding_kind));
    push_str(&mut line, ":binding_sig=");
    push_str(&mut line, state.binding_signature.as_str());
    push_str(&mut line, ":op_history=");
    push_str(&mut line, state.op_history_signature.as_str());
    push_str(&mut line, ":well_formed=");
    push_bool(&mut line, state.state_well_formed);
    line
}

/// The telemetry line for a two-qubit operator.
pub fn phase15_op_telemetry_line(op: Phase15TwoQubitOp) -> (line: String)
    ensures
        line@ == op_line(op),
{
    let mut line = text("op=");
    push_str(&mut line, phase15_op_name(op));
    push_str(&mut line, ":signature=");
    push_str(&mut line, phase15_op_signature(op));
    line
}

} // verus!
