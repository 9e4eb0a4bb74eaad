//! Single-qubit kernel over integer Bloch vectors: governed states, the
//! three fixed unitaries (as Bloch-space rotations), z-measurement and
//! replay-stable unitary sequences.
use vstd::prelude::*;
use crate::text::{
    bool_text, dec_int, push_bool, hash16, hash_text, is_blank, join, join_strings, push_i64, push_str, push_usize, same_text,
    text, views,
};

verus! {

#[derive(Debug, Clone, Copy, PartialEq, Eq, Structural)]
pub enum Phase13QubitUnaryOp {
    PauliX,
    PauliZ,
    FixedHadamard,
}

#[derive(Debug, Clone, PartialEq, Eq)]
pub struct Phase13QubitState {
    pub x: i8,
    pub y: i8,
    pub z: i8,
    pub norm_error: i8,
    pub state_signature: String,
    pub state_well_formed: bool,
}

#[derive(Debug, Clone, PartialEq, Eq)]
pub struct Phase13MeasurementOutcome {
    pub bit: u8,
    pub post_state: Phase13QubitState,
    pub policy: String,
    pub measurement_signature: String,
}

#[derive(Debug, Clone, PartialEq, Eq)]
pub struct Phase13UnitarySequenceResult {
    pub initial_state_signature: String,
    pub final_state: Phase13QubitState,
    pub op_sequence_signature: String,
    pub evolution_signature: String,
    pub step_count: usize,
}

// ── model ────────────────────────────────────────────────────────────────────

pub open spec fn sq(a: int) -> int {
    a * a
}

/// Squared length of the Bloch vector.
pub open spec fn norm_sq(x: int, y: int, z: int) -> int {
    sq(x) + sq(y) + sq(z)
}

/// The text whose hash is a state's signature.
pub open spec fn state_sig_input(x: int, y: int, z: int) -> Seq<char> {
    "x="@ + dec_int(x) + "|y="@ + dec_int(y) + "|z="@ + dec_int(z)
}

/// The signature of the state at Bloch vector (x, y, z).
pub open spec fn state_sig(x: int, y: int, z: int) -> Seq<char> {
    hash16(state_sig_input(x, y, z))
}

/// The error text for a Bloch vector that is not of unit length.
pub open spec fn norm_error_text(n: int) -> Seq<char> {
    "phase13_invalid_state_norm: expected 1, observed "@ + dec_int(n)
}

/// A state exactly as `phase13_build_qubit_state` produces it for (x, y, z).
pub open spec fn is_built_state(s: Phase13QubitState, x: int, y: int, z: int) -> bool {
    &&& s.x == x
    &&& s.y == y
    &&& s.z == z
    &&& s.norm_error == 0
    &&& s.state_signature@ == state_sig(x, y, z)
    &&& s.state_well_formed
}

/// The verdict of `phase13_validate_qubit_state_invariants`: `None` when the
/// state passes, otherwise the first violated invariant's message.
pub open spec fn state_error(s: Phase13QubitState) -> Option<Seq<char>> {
    if norm_sq(s.x as int, s.y as int, s.z as int) != 1 {
        Some(norm_error_text(norm_sq(s.x as int, s.y as int, s.z as int)))
    } else if s.state_signature@ != state_sig(s.x as int, s.y as int, s.z as int) {
        Some("phase13_state_signature_mismatch"@)
    } else if s.norm_error != 0 {
        Some("phase13_state_norm_error_nonzero"@)
    } else if !s.state_well_formed {
        Some("phase13_state_marked_malformed"@)
    } else {
        None
    }
}

pub open spec fn valid_state(s: Phase13QubitState) -> bool {
    state_error(s) is None
}

/// The Bloch-space rotation of each unitary.
pub open spec fn rotate(op: Phase13QubitUnaryOp, x: int, y: int, z: int) -> (int, int, int) {
    match op {
        Phase13QubitUnaryOp::PauliX => (x, -y, -z),
        Phase13QubitUnaryOp::PauliZ => (-x, -y, z),
        Phase13QubitUnaryOp::FixedHadamard => (z, -y, x),
    }
}

pub open spec fn unitary_sig(op: Phase13QubitUnaryOp) -> Seq<char> {
    match op {
        Phase13QubitUnaryOp::PauliX => "[[0,1],[1,0]]"@,
        Phase13QubitUnaryOp::PauliZ => "[[1,0],[0,-1]]"@,
        Phase13QubitUnaryOp::FixedHadamard => "(1/sqrt(2))*[[1,1],[1,-1]]"@,
    }
}

/// The integer matrix of an operator; the Hadamard has none.
pub open spec fn int_matrix(op: Phase13QubitUnaryOp) -> Option<(int, int, int, int)> {
    match op {
        Phase13QubitUnaryOp::PauliX => Some((0, 1, 1, 0)),
        Phase13QubitUnaryOp::PauliZ => Some((1, 0, 0, -1)),
        Phase13QubitUnaryOp::FixedHadamard => None,
    }
}

/// The row-major product of two 2x2 matrices.
pub open spec fn mat_mul(a: (int, int, int, int), b: (int, int, int, int)) -> (int, int, int, int) {
    (
        a.0 * b.0 + a.1 * b.2,
        a.0 * b.1 + a.1 * b.3,
        a.2 * b.0 + a.3 * b.2,
        a.2 * b.1 + a.3 * b.3,
    )
}

/// The Bloch vector reached from (x, y, z) after applying `ops` in order.
pub open spec fn xyz_after(x: int, y: int, z: int, ops: Seq<Phase13QubitUnaryOp>) -> (int, int, int)
    decreases ops.len(),
{
    if ops.len() == 0 {
        (x, y, z)
    } else {
        let p = xyz_after(x, y, z, ops.drop_last());
        rotate(ops.last(), p.0, p.1, p.2)
    }
}

/// The trace line recorded for step `i` (0-based) of a unitary sequence.
pub open spec fn sequence_step_line(
    x: int,
    y: int,
    z: int,
    ops: Seq<Phase13QubitUnaryOp>,
    i: int,
) -> Seq<char> {
    let p = xyz_after(x, y, z, ops.subrange(0, i + 1));
    "step="@ + dec_int(i + 1) + "|op="@ + unitary_sig(ops[i]) + "|state="@ + state_sig(p.0, p.1, p.2)
}

pub open spec fn sequence_step_lines(x: int, y: int, z: int, ops: Seq<Phase13QubitUnaryOp>) -> Seq<
    Seq<char>,
> {
    Seq::new(ops.len(), |i: int| sequence_step_line(x, y, z, ops, i))
}

pub open spec fn measure_bit(x: int, y: int, z: int) -> int {
    if z > 0 {
        0
    } else if z < 0 {
        1
    } else if x > 0 || (x == 0 && y >= 0) {
        0
    } else {
        1
    }
}

// ── lemmas ───────────────────────────────────────────────────────────────────

proof fn lemma_sq_bounds(a: int)
    ensures
        sq(a) >= 0,
        sq(a) == sq(-a),
        (a >= 2 || a <= -2) ==> sq(a) >= 4,
        sq(a) == 0 <==> a == 0,
{
    assert(sq(a) >= 0) by (nonlinear_arith);
    assert(sq(a) == sq(-a)) by (nonlinear_arith);
    assert((a >= 2 || a <= -2) ==> sq(a) >= 4) by (nonlinear_arith);
    assert(sq(a) == 0 <==> a == 0) by (nonlinear_arith);
}

/// A unit Bloch vector has components in -1..=1.
pub proof fn lemma_unit_components(x: int, y: int, z: int)
    requires
        norm_sq(x, y, z) == 1,
    ensures
        -1 <= x <= 1,
        -1 <= y <= 1,
        -1 <= z <= 1,
{
    lemma_sq_bounds(x);
    lemma_sq_bounds(y);
    lemma_sq_bounds(z);
}

/// Every fixed unitary preserves the Bloch vector's length.
pub proof fn lemma_rotate_norm(op: Phase13QubitUnaryOp, x: int, y: int, z: int)
    ensures
        ({
            let p = rotate(op, x, y, z);
            norm_sq(p.0, p.1, p.2) == norm_sq(x, y, z)
        }),
{
    lemma_sq_bounds(x);
    lemma_sq_bounds(y);
    lemma_sq_bounds(z);
}

/// Validation accepts every state the builder produces, and a unitary
/// applied to a valid state yields a valid state.
pub proof fn lemma_states_stay_valid(
    s: Phase13QubitState,
    x: int,
    y: int,
    z: int,
    t: Phase13QubitState,
    op: Phase13QubitUnaryOp,
)
    ensures
        norm_sq(x, y, z) == 1 && is_built_state(s, x, y, z) ==> valid_state(s),
        valid_state(s) && ({
            let p = rotate(op, s.x as int, s.y as int, s.z as int);
            is_built_state(t, p.0, p.1, p.2)
        }) ==> valid_state(t),
{
    lemma_rotate_norm(op, s.x as int, s.y as int, s.z as int);
}

/// Unit length is kept along any sequence of unitaries.
pub proof fn lemma_xyz_after_norm(x: int, y: int, z: int, ops: Seq<Phase13QubitUnaryOp>)
    ensures
        ({
            let p = xyz_after(x, y, z, ops);
            norm_sq(p.0, p.1, p.2) == norm_sq(x, y, z)
        }),
    decreases ops.len(),
{
    if ops.len() > 0 {
        lemma_xyz_after_norm(x, y, z, ops.drop_last());
        let p = xyz_after(x, y, z, ops.drop_last());
        lemma_rotate_norm(ops.last(), p.0, p.1, p.2);
    }
}

/// `s` is what applying `op` to `state` gives: `state` is governed and `s`
/// is the governed state at the rotated Bloch vector.
pub open spec fn unitary_result(state: Phase13QubitState, op: Phase13QubitUnaryOp, s: Phase13QubitState) -> bool {
    &&& valid_state(state)
    &&& ({
        let p = rotate(op, state.x as int, state.y as int, state.z as int);
        is_built_state(s, p.0, p.1, p.2)
    })
}

/// The unitaries are half-turns of the Bloch sphere: Pauli X about the x
/// axis, (x, y, z) to (x, -y, -z); Pauli Z about the z axis, (x, y, z) to
/// (-x, -y, z), so it moves every state off the z axis; the Hadamard about
/// the x+z diagonal, (x, y, z) to (z, -y, x). The result is governed.
pub proof fn lemma_unitary_half_turns(state: Phase13QubitState, op: Phase13QubitUnaryOp, s: Phase13QubitState)
    requires
        unitary_result(state, op, s),
    ensures
        op == Phase13QubitUnaryOp::PauliX ==> s.x == state.x && s.y == -state.y && s.z == -state.z,
        op == Phase13QubitUnaryOp::PauliZ ==> s.x == -state.x && s.y == -state.y && s.z == state.z,
        op == Phase13QubitUnaryOp::PauliZ && (state.x != 0 || state.y != 0) ==> s.x != state.x || s.y
            != state.y,
        op == Phase13QubitUnaryOp::FixedHadamard ==> s.x == state.z && s.y == -state.y && s.z == state.x,
        valid_state(s),
{
    lemma_states_stay_valid(state, 0, 0, 0, s, op);
}

/// Each unitary undoes itself: applying it twice gives back the Bloch
/// vector it started from.
pub proof fn lemma_unitary_involution(
    a: Phase13QubitState,
    op: Phase13QubitUnaryOp,
    b: Phase13QubitState,
    c: Phase13QubitState,
)
    requires
        unitary_result(a, op, b),
        unitary_result(b, op, c),
    ensures
        c.x == a.x,
        c.y == a.y,
        c.z == a.z,
{
    lemma_unitary_half_turns(a, op, b);
    lemma_unitary_half_turns(b, op, c);
}

/// The Z measurement reads the z component: a state above the equator reads
/// 0, one below reads 1, and one on the equator reads 0 when x > 0 or
/// (x == 0 and y >= 0) and 1 otherwise. The state collapses onto the pole
/// it read: (0, 0, 1) for 0, (0, 0, -1) for 1.
pub proof fn lemma_measure_reads_z(x: int, y: int, z: int, bit: int, post: Phase13QubitState)
    requires
        bit == measure_bit(x, y, z),
        is_built_state(post, 0, 0, if bit == 0 { 1 } else { -1 }),
    ensures
        z > 0 ==> bit == 0 && post.z == 1,
        z < 0 ==> bit == 1 && post.z == -1,
        z == 0 && (x > 0 || (x == 0 && y >= 0)) ==> bit == 0,
        z == 0 && (x < 0 || (x == 0 && y < 0)) ==> bit == 1,
        post.x == 0 && post.y == 0,
{
}

// ── kernel ───────────────────────────────────────────────────────────────────

fn sq_i32(a: i8) -> (r: i32)
    ensures
        r == sq(a as int),
        0 <= r <= 16384,
{
    assert(0 <= (a as int) * (a as int) <= 16384) by (nonlinear_arith)
        requires
            -128 <= a <= 127,
    ;
    (a as i32) * (a as i32)
}

/// The product of two entries of a unit integer matrix.
fn unit_mul(a: i8, b: i8) -> (r: i8)
    requires
        -1 <= a <= 1,
        -1 <= b <= 1,
    ensures
        r == a * b,
{
    if a == 0 || b == 0 {
        assert((a as int) * (b as int) == 0) by (nonlinear_arith)
            requires
                a == 0 || b == 0,
        ;
        0
    } else if a == b {
        assert((a as int) * (b as int) == 1) by (nonlinear_arith)
            requires
                a == b,
                a == 1 || a == -1,
        ;
        1
    } else {
        assert((a as int) * (b as int) == -1) by (nonlinear_arith)
            requires
                a == -b,
                a == 1 || a == -1,
        ;
        -1
    }
}

fn phase13_state_sig_input(x: i8, y: i8, z: i8) -> (s: String)
    ensures
        s@ == state_sig_input(x as int, y as int, z as int),
{
    let mut s = text("x=");
    push_i64(&mut s, x as i64);
    push_str(&mut s, "|y=");
    push_i64(&mut s, y as i64);
    push_str(&mut s, "|z=");
    push_i64(&mut s, z as i64);
    s
}

/// Builds the governed state at Bloch vector (x, y, z); only unit vectors are accepted.
pub fn phase13_build_qubit_state(x: i8, y: i8, z: i8) -> (r: Result<Phase13QubitState, String>)
    ensures
        match r {
            Ok(s) => norm_sq(x as int, y as int, z as int) == 1 && is_built_state(
                s,
                x as int,
                y as int,
                z as int,
            ),
            Err(e) => norm_sq(x as int, y as int, z as int) != 1 && e@ == norm_error_text(
                norm_sq(x as int, y as int, z as int),
            ),
        },
{
    let norm_squared: i32 = sq_i32(x) + sq_i32(y) + sq_i32(z);
    if norm_squared != 1 {
        let mut e = text("phase13_invalid_state_norm: expected 1, observed ");
        push_i64(&mut e, norm_squared as i64);
        return Err(e);
    }
    let input = phase13_state_sig_input(x, y, z);
    let state_signature = hash_text(input.as_str());
    Ok(
        Phase13QubitState {
            x,
            y,
            z,
            norm_error: 0,
            state_signature,
            state_well_formed: true,
        },
    )
}

/// Checks that a state is exactly the governed state of its Bloch vector.
pub fn phase13_validate_qubit_state_invariants(state: &Phase13QubitState) -> (r: Result<(), String>)
    ensures
        match r {
            Ok(_) => state_error(*state) is None,
            Err(e) => state_error(*state) == Some(e@),
        },
{
    let expected = match phase13_build_qubit_state(state.x, state.y, state.z) {
        Ok(s) => s,
        Err(e) => return Err(e),
    };
    if !same_text(&expected.state_signature, &state.state_signature) {
        return Err(text("phase13_state_signature_mismatch"));
    }
    if state.norm_error != 0 {
        return Err(text("phase13_state_norm_error_nonzero"));
    }
    if !state.state_well_formed {
        return Err(text("phase13_state_marked_malformed"));
    }
    Ok(())
}

/// The textual matrix of each unitary.
pub fn phase13_unitary_signature(op: Phase13QubitUnaryOp) -> (s: String)
    ensures
        s@ == unitary_sig(op),
{
    match op {
        Phase13QubitUnaryOp::PauliX => text("[[0,1],[1,0]]"),
        Phase13QubitUnaryOp::PauliZ => text("[[1,0],[0,-1]]"),
        Phase13QubitUnaryOp::FixedHadamard => text("(1/sqrt(2))*[[1,1],[1,-1]]"),
    }
}

/// Every fixed unitary has a non-empty signature, so this always succeeds.
pub fn phase13_validate_unitary_invariants(op: Phase13QubitUnaryOp) -> (r: Result<(), String>)
    ensures
        r is Ok,
{
    proof {
        reveal_strlit("[[0,1],[1,0]]");
        reveal_strlit("[[1,0],[0,-1]]");
        reveal_strlit("(1/sqrt(2))*[[1,1],[1,-1]]");
    }
    let sig = phase13_unitary_signature(op);
    if is_blank(&sig) {
        return Err(text("phase13_empty_unitary_signature"));
    }
    Ok(())
}

fn phase13_integer_unitary_matrix(op: Phase13QubitUnaryOp) -> (r: Result<[[i8; 2]; 2], String>)
    ensures
        match r {
            Ok(m) => int_matrix(op) == Some(
                (m[0][0] as int, m[0][1] as int, m[1][0] as int, m[1][1] as int),
            ),
            Err(e) => int_matrix(op) is None
                && e@ == "phase13_integer_matrix_unsupported_for_fixed_hadamard"@,
        },
{
    match op {
        Phase13QubitUnaryOp::PauliX => Ok([[0, 1], [1, 0]]),
        Phase13QubitUnaryOp::PauliZ => Ok([[1, 0], [0, -1]]),
        Phase13QubitUnaryOp::FixedHadamard => Err(
            text("phase13_integer_matrix_unsupported_for_fixed_hadamard"),
        ),
    }
}

fn phase13_compose_integer_unitary_matrix(
    lhs: Phase13QubitUnaryOp,
    rhs: Phase13QubitUnaryOp,
) -> (r: Result<(i8, i8, i8, i8), String>)
    ensures
        match r {
            Ok(m) => int_matrix(lhs) is Some && int_matrix(rhs) is Some && (
            m.0 as int, m.1 as int, m.2 as int, m.3 as int) == mat_mul(
                int_matrix(lhs)->0,
                int_matrix(rhs)->0,
            ),
            Err(e) => (int_matrix(lhs) is None || int_matrix(rhs) is None)
                && e@ == "phase13_integer_matrix_unsupported_for_fixed_hadamard"@,
        },
{
    let a = match phase13_integer_unitary_matrix(lhs) {
        Ok(m) => m,
        Err(e) => return Err(e),
    };
    let b = match phase13_integer_unitary_matrix(rhs) {
        Ok(m) => m,
        Err(e) => return Err(e),
    };
    let m00 = unit_mul(a[0][0], b[0][0]) + unit_mul(a[0][1], b[1][0]);
    let m01 = unit_mul(a[0][0], b[0][1]) + unit_mul(a[0][1], b[1][1]);
    let m10 = unit_mul(a[1][0], b[0][0]) + unit_mul(a[1][1], b[1][0]);
    let m11 = unit_mul(a[1][0], b[0][1]) + unit_mul(a[1][1], b[1][1]);
    Ok((m00, m01, m10, m11))
}

/// Whether `lhs * rhs == rhs * lhs`; the Hadamard has no integer matrix and is refused.
pub fn phase13_ops_commute(lhs: Phase13QubitUnaryOp, rhs: Phase13QubitUnaryOp) -> (r: Result<
    bool,
    String,
>)
    ensures
        match r {
            Ok(b) => int_matrix(lhs) is Some && int_matrix(rhs) is Some && b == (mat_mul(
                int_matrix(lhs)->0,
                int_matrix(rhs)->0,
            ) == mat_mul(int_matrix(rhs)->0, int_matrix(lhs)->0)),
            Err(e) => (int_matrix(lhs) is None || int_matrix(rhs) is None)
                && e@ == "phase13_integer_matrix_unsupported_for_fixed_hadamard"@,
        },
{
    let lr = match phase13_compose_integer_unitary_matrix(lhs, rhs) {
        Ok(m) => m,
        Err(e) => return Err(e),
    };
    let rl = match phase13_compose_integer_unitary_matrix(rhs, lhs) {
        Ok(m) => m,
        Err(e) => return Err(e),
    };
    Ok(lr.0 == rl.0 && lr.1 == rl.1 && lr.2 == rl.2 && lr.3 == rl.3)
}

/// Applies one unitary to a governed state.
pub fn phase13_apply_unitary(state: &Phase13QubitState, op: Phase13QubitUnaryOp) -> (r: Result<
    Phase13QubitState,
    String,
>)
    ensures
        match r {
            Ok(s) => unitary_result(*state, op, s),
            Err(e) => state_error(*state) == Some(e@),
        },
{
    match phase13_validate_qubit_state_invariants(state) {
        Ok(_) => {},
        Err(e) => return Err(e),
    }
    let _ = phase13_validate_unitary_invariants(op);
    proof {
        lemma_unit_components(state.x as int, state.y as int, state.z as int);
        lemma_rotate_norm(op, state.x as int, state.y as int, state.z as int);
    }
    let (x, y, z) = match op {
        Phase13QubitUnaryOp::PauliX => (state.x, -state.y, -state.z),
        Phase13QubitUnaryOp::PauliZ => (-state.x, -state.y, state.z),
        Phase13QubitUnaryOp::FixedHadamard => (state.z, -state.y, state.x),
    };
    phase13_build_qubit_state(x, y, z)
}

/// Measures a governed state along z with the fixed threshold policy.
pub fn phase13_measure_z(state: &Phase13QubitState) -> (r: Result<
    Phase13MeasurementOutcome,
    String,
>)
    ensures
        match r {
            Ok(m) => valid_state(*state) && m.bit as int == measure_bit(
                state.x as int,
                state.y as int,
                state.z as int,
            ) && is_built_state(m.post_state, 0, 0, if m.bit == 0 { 1 } else { -1 })
                && m.policy@ == "fixture_threshold_v1"@ && m.measurement_signature@ == hash16(
                "policy="@ + m.policy@ + "|source="@ + state.state_signature@ + "|bit="@
                    + dec_int(m.bit as int) + "|post="@ + m.post_state.state_signature@,
            ),
            Err(e) => state_error(*state) == Some(e@),
        },
{
    match phase13_validate_qubit_state_invariants(state) {
        Ok(_) => {},
        Err(e) => return Err(e),
    }
    let bit: u8 = if state.z > 0 {
        0
    } else if state.z < 0 {
        1
    } else if state.x > 0 || (state.x == 0 && state.y >= 0) {
        0
    } else {
        1
    };
    let built = if bit == 0 {
        phase13_build_qubit_state(0, 0, 1)
    } else {
        phase13_build_qubit_state(0, 0, -1)
    };
    let post_state = match built {
        Ok(s) => s,
        Err(e) => return Err(e),
    };
    let policy = text("fixture_threshold_v1");
    let mut input = text("policy=");
    push_str(&mut input, policy.as_str());
    push_str(&mut input, "|source=");
    push_str(&mut input, state.state_signature.as_str());
    push_str(&mut input, "|bit=");
    push_i64(&mut input, bit as i64);
    push_str(&mut input, "|post=");
    push_str(&mut input, post_state.state_signature.as_str());
    let measurement_signature = hash_text(input.as_str());
    Ok(Phase13MeasurementOutcome { bit, post_state, policy, measurement_signature })
}

impl Phase13QubitState {
    /// A field-for-field copy.
    pub fn duplicate(&self) -> (r: Self)
        ensures
            r == *self,
    {
        Phase13QubitState {
            x: self.x,
            y: self.y,
            z: self.z,
            norm_error: self.norm_error,
            state_signature: self.state_signature.clone(),
            state_well_formed: self.state_well_formed,
        }
    }
}

/// Applies a sequence of unitaries and records a replay-stable trace of it.
pub fn phase13_apply_unitary_sequence(
    initial_state: &Phase13QubitState,
    ops: &[Phase13QubitUnaryOp],
) -> (r: Result<Phase13UnitarySequenceResult, String>)
    ensures
        match r {
            Ok(res) => valid_state(*initial_state) && ({
                let p = xyz_after(
                    initial_state.x as int,
                    initial_state.y as int,
                    initial_state.z as int,
                    ops@,
                );
                &&& is_built_state(res.final_state, p.0, p.1, p.2)
                &&& res.initial_state_signature@ == initial_state.state_signature@
                &&& res.step_count == ops@.len()
                &&& res.op_sequence_signature@ == hash16(
                    join(
                        sequence_step_lines(
                            initial_state.x as int,
                            initial_state.y as int,
                            initial_state.z as int,
                            ops@,
                        ),
                        "||"@,
                    ),
                )
                &&& res.evolution_signature@ == hash16(
                    "initial="@ + initial_state.state_signature@ + "|ops="@
                        + res.op_sequence_signature@ + "|final="@
                        + res.final_state.state_signature@ + "|steps="@ + dec_int(
                        ops@.len() as int,
                    ),
                )
            }),
            Err(e) => state_error(*initial_state) == Some(e@),
        },
{
    match phase13_validate_qubit_state_invariants(initial_state) {
        Ok(_) => {},
        Err(e) => return Err(e),
    }
    let ghost x0 = initial_state.x as int;
    let ghost y0 = initial_state.y as int;
    let ghost z0 = initial_state.z as int;
    let mut current = initial_state.duplicate();
    let mut step_signatures: Vec<String> = Vec::new();
    let mut index: usize = 0;
    assert(ops@.subrange(0, 0) =~= Seq::<Phase13QubitUnaryOp>::empty());
    while index < ops.len()
        invariant
            index <= ops@.len(),
            valid_state(current),
            ({
                let p = xyz_after(x0, y0, z0, ops@.subrange(0, index as int));
                is_built_state(current, p.0, p.1, p.2)
            }),
            norm_sq(x0, y0, z0) == 1,
            step_signatures@.len() == index,
            forall|j: int|
                0 <= j < index ==> #[trigger] step_signatures@[j]@ == sequence_step_line(
                    x0,
                    y0,
                    z0,
                    ops@,
                    j,
                ),
        decreases ops@.len() - index,
    {
        let op = ops[index];
        let _ = phase13_validate_unitary_invariants(op);
        proof {
            let pre = ops@.subrange(0, index as int);
            lemma_xyz_after_norm(x0, y0, z0, pre);
            let post = ops@.subrange(0, index + 1);
            assert(post.drop_last() =~= pre);
            assert(post.last() == op);
        }
        let next = match phase13_apply_unitary(&current, op) {
            Ok(s) => s,
            Err(e) => {
                assert(false);
                return Err(e);
            },
        };
        current = next;
        let mut line = text("step=");
        push_usize(&mut line, index + 1);
        push_str(&mut line, "|op=");
        let usig = phase13_unitary_signature(op);
        push_str(&mut line, usig.as_str());
        push_str(&mut line, "|state=");
        push_str(&mut line, current.state_signature.as_str());
        proof {
            lemma_xyz_after_norm(x0, y0, z0, ops@.subrange(0, index + 1));
            assert(line@ =~= sequence_step_line(x0, y0, z0, ops@, index as int));
        }
        step_signatures.push(line);
        index = index + 1;
    }
    assert(ops@.subrange(0, ops@.len() as int) =~= ops@);
    let joined = join_strings(&step_signatures, "||");
    assert(views(step_signatures@) =~= sequence_step_lines(x0, y0, z0, ops@));
    let op_sequence_signature = hash_text(joined.as_str());
    let mut evo = text("initial=");
    push_str(&mut evo, initial_state.state_signature.as_str());
    push_str(&mut evo, "|ops=");
    push_str(&mut evo, op_sequence_signature.as_str());
    push_str(&mut evo, "|final=");
    push_str(&mut evo, current.state_signature.as_str());
    push_str(&mut evo, "|steps=");
    push_usize(&mut evo, ops.len());
    let evolution_signature = hash_text(evo.as_str());
    Ok(
        Phase13UnitarySequenceResult {
            initial_state_signature: initial_state.state_signature.clone(),
            final_state: current,
            op_sequence_signature,
            evolution_signature,
            step_count: ops.len(),
        },
    )
}

/// The telemetry line published for a qubit state.
pub open spec fn state_line(q: Phase13QubitState) -> Seq<char> {
    "x="@ + dec_int(q.x as int) + ":y="@ + dec_int(q.y as int) + ":z="@ + dec_int(q.z as int)
        + ":norm_error="@ + dec_int(q.norm_error as int) + ":state_signature="@ + q.state_signature@
        + ":well_formed="@ + bool_text(q.state_well_formed)
}

/// The telemetry line published for a measurement.
pub open spec fn measurement_line(o: Phase13MeasurementOutcome) -> Seq<char> {
    "policy="@ + o.policy@ + ":bit="@ + dec_int(o.bit as int) + ":post_signature="@
        + o.post_state.state_signature@ + ":measurement_signature="@ + o.measurement_signature@
}

/// The telemetry line for a qubit state.
pub fn phase13_state_telemetry_line(state: &Phase13QubitState) -> (line: String)
    ensures
        line@ == state_line(*state),
{
    let mut line = text("x=");
    push_i64(&mut line, state.x as i64);
    push_str(&mut line, ":y=");
    push_i64(&mut line, state.y as i64);
    push_str(&mut line, ":z=");
    push_i64(&mut line, state.z as i64);
    push_str(&mut line, ":norm_error=");
    push_i64(&mut line, state.norm_error as i64);
    push_str(&mut line, ":state_signature=");
    push_str(&mut line, state.state_signature.as_str());
    push_str(&mut line, ":well_formed=");
    push_bool(&mut line, state.state_well_formed);
    line
}

/// The telemetry line for a measurement outcome.
pub fn phase13_measurement_telemetry_line(outcome: &Phase13MeasurementOutcome) -> (line: String)
    ensures
        line@ == measurement_line(*outcome),
{
    let mut line = text("policy=");
    push_str(&mut line, outcome.policy.as_str());
    push_str(&mut line, ":bit=");
    push_i64(&mut line, outcome.bit as i64);
    push_str(&mut line, ":post_signature=");
    push_str(&mut line, outcome.post_state.state_signature.as_str());
    push_str(&mut line, ":measurement_signature=");
    push_str(&mut line, outcome.measurement_signature.as_str());
    line
}

} // verus!
