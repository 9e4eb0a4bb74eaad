//! Operator algebra over the single-qubit unitaries: named operator families,
//! integer commutators and pairwise commutation tables.
use vstd::prelude::*;
use crate::cognition::phase13_qubit_kernel::{Phase13QubitUnaryOp, int_matrix, mat_mul};
use crate::text::{lemma_hash16_len, bool_text, push_bool, dec_int, hash16, hash_text, is_blank, join, join_strings, push_i64, push_str,
    push_usize, dec_nat, same_text, text, views};

verus! {

/// Classification of an operator family by algebraic structure.
#[derive(Debug, Clone, Copy, PartialEq, Eq, Structural)]
pub enum Phase14OperatorFamilyKind {
    /// Pauli group generators.
    PauliGroup,
    /// Clifford unitaries (H and combinations with Pauli).
    CliffordFamily,
    /// Mixed / not yet classified.
    Mixed,
}

/// The commutator [A, B] = AB - BA as an integer 2x2 matrix.
#[derive(Debug, Clone, PartialEq, Eq)]
pub struct Phase14Commutator {
    /// Entries row-major: [[m00, m01], [m10, m11]].
    pub matrix: [[i16; 2]; 2],
    /// True when [A, B] == 0 (operators commute).
    pub is_zero: bool,
    /// Canonical hash of the commutator matrix.
    pub commutator_signature: String,
}

/// A named, closed operator family.
#[derive(Debug, Clone, PartialEq, Eq)]
pub struct Phase14OperatorFamily {
    pub family_name: String,
    pub family_kind: Phase14OperatorFamilyKind,
    pub ops: Vec<Phase14OperatorEntry>,
    /// Hash of the full operator set, order-stable.
    pub family_signature: String,
    pub family_well_formed: bool,
}

/// One member of an operator family.
#[derive(Debug, Clone, PartialEq, Eq)]
pub struct Phase14OperatorEntry {
    pub op: Phase13QubitUnaryOp,
    pub label: String,
    pub matrix_signature: String,
}

/// Pairwise commutation table for a family.
#[derive(Debug, Clone, PartialEq, Eq)]
pub struct Phase14CommutationTable {
    pub family_signature: String,
    /// One entry per ordered pair (i, j) where i < j.
    pub pairs: Vec<Phase14CommutationPair>,
    pub table_signature: String,
}

#[derive(Debug, Clone, PartialEq, Eq)]
pub struct Phase14CommutationPair {
    pub lhs_label: String,
    pub rhs_label: String,
    pub commutator: Phase14Commutator,
}

// ── model ────────────────────────────────────────────────────────────────────

pub open spec fn op_name(op: Phase13QubitUnaryOp) -> Seq<char> {
    match op {
        Phase13QubitUnaryOp::PauliX => "PauliX"@,
        Phase13QubitUnaryOp::PauliZ => "PauliZ"@,
        Phase13QubitUnaryOp::FixedHadamard => "FixedHadamard"@,
    }
}

pub open spec fn family_kind_name(k: Phase14OperatorFamilyKind) -> Seq<char> {
    match k {
        Phase14OperatorFamilyKind::PauliGroup => "PauliGroup"@,
        Phase14OperatorFamilyKind::CliffordFamily => "CliffordFamily"@,
        Phase14OperatorFamilyKind::Mixed => "Mixed"@,
    }
}

/// An entry exactly as the family builders produce it.
pub open spec fn is_entry(e: Phase14OperatorEntry, op: Phase13QubitUnaryOp, label: Seq<char>) -> bool {
    &&& e.op == op
    &&& e.label@ == label
    &&& e.matrix_signature@ == hash16("op="@ + op_name(op) + "|label="@ + label)
}

pub open spec fn entry_labels(ops: Seq<Phase14OperatorEntry>) -> Seq<Seq<char>> {
    ops.map_values(|e: Phase14OperatorEntry| e.label@)
}

pub open spec fn family_sig(
    name: Seq<char>,
    kind: Phase14OperatorFamilyKind,
    labels: Seq<Seq<char>>,
) -> Seq<char> {
    hash16("name="@ + name + "|kind="@ + family_kind_name(kind) + "|ops=["@ + join(labels, ","@) + "]"@)
}

/// A family exactly as `phase14_assemble_family` produces it.
pub open spec fn is_assembled_family(
    f: Phase14OperatorFamily,
    name: Seq<char>,
    kind: Phase14OperatorFamilyKind,
) -> bool {
    &&& f.family_name@ == name
    &&& f.family_kind == kind
    &&& f.family_signature@ == family_sig(name, kind, entry_labels(f.ops@))
    &&& f.family_well_formed == (f.ops@.len() > 0 && name.len() > 0)
}

/// AB - BA for two integer matrices.
pub open spec fn comm_matrix(a: (int, int, int, int), b: (int, int, int, int)) -> (int, int, int, int) {
    let ab = mat_mul(a, b);
    let ba = mat_mul(b, a);
    (ab.0 - ba.0, ab.1 - ba.1, ab.2 - ba.2, ab.3 - ba.3)
}

pub open spec fn comm_text(m: (int, int, int, int)) -> Seq<char> {
    "comm=["@ + dec_int(m.0) + ","@ + dec_int(m.1) + ","@ + dec_int(m.2) + ","@ + dec_int(m.3) + "]"@
}

pub open spec fn matrix_of(c: Phase14Commutator) -> (int, int, int, int) {
    (c.matrix[0][0] as int, c.matrix[0][1] as int, c.matrix[1][0] as int, c.matrix[1][1] as int)
}

/// The commutator of two operators that both have integer matrices.
pub open spec fn is_commutator(c: Phase14Commutator, lhs: Phase13QubitUnaryOp, rhs: Phase13QubitUnaryOp) -> bool {
    let m = comm_matrix(int_matrix(lhs)->0, int_matrix(rhs)->0);
    &&& matrix_of(c) == m
    &&& c.is_zero == (m == (0int, 0int, 0int, 0int))
    &&& c.commutator_signature@ == hash16(comm_text(m))
}

/// What the commutation table records for a pair: the commutator when both
/// operators have integer matrices, otherwise the irrational-pair sentinel.
pub open spec fn is_table_commutator(
    c: Phase14Commutator,
    lhs: Phase13QubitUnaryOp,
    rhs: Phase13QubitUnaryOp,
) -> bool {
    if int_matrix(lhs) is Some && int_matrix(rhs) is Some {
        is_commutator(c, lhs, rhs)
    } else {
        &&& matrix_of(c) == (0int, 0int, 0int, 0int)
        &&& !c.is_zero
        &&& c.commutator_signature@ == "irrational_pair_sentinel"@
    }
}

/// The pairs (i, j), i < j < n, of row `i` from column `j` on.
pub open spec fn pair_row(i: int, j: int, n: int) -> Seq<(int, int)> {
    Seq::new((if n > j { n - j } else { 0 }) as nat, |k: int| (i, j + k))
}

/// All pairs (r, c) with r < i, r < c < n, in lexicographic order.
pub open spec fn pair_rows(i: nat, n: int) -> Seq<(int, int)>
    decreases i,
{
    if i == 0 {
        Seq::empty()
    } else {
        pair_rows((i - 1) as nat, n) + pair_row(i - 1, i as int, n)
    }
}

/// Every ordered pair i < j < n, lexicographically.
pub open spec fn all_pairs(n: nat) -> Seq<(int, int)> {
    pair_rows(n, n as int)
}

pub open spec fn pair_sigs(pairs: Seq<Phase14CommutationPair>) -> Seq<Seq<char>> {
    pairs.map_values(|p: Phase14CommutationPair| p.commutator.commutator_signature@)
}

/// The first index whose label repeats an earlier one, scanning from `k`.
pub open spec fn first_repeat(labels: Seq<Seq<char>>, k: int) -> Option<int>
    decreases labels.len() - k,
{
    if k < 0 || k >= labels.len() {
        None
    } else if exists|j: int| 0 <= j < k && labels[j] == labels[k] {
        Some(k)
    } else {
        first_repeat(labels, k + 1)
    }
}

/// The verdict of `phase14_validate_family_invariants`.
pub open spec fn family_error(f: Phase14OperatorFamily) -> Option<Seq<char>> {
    if !f.family_well_formed {
        Some("phase14_family_marked_malformed"@)
    } else if f.ops@.len() == 0 {
        Some("phase14_family_has_no_operators"@)
    } else if f.family_name@.len() == 0 {
        Some("phase14_family_name_empty"@)
    } else if f.family_signature@.len() == 0 {
        Some("phase14_family_signature_empty"@)
    } else {
        match first_repeat(entry_labels(f.ops@), 0) {
            Some(k) => Some("phase14_duplicate_operator_label: "@ + entry_labels(f.ops@)[k]),
            None => None,
        }
    }
}

pub open spec fn expected_pair_count(n: int) -> int {
    n * (if n >= 1 { n - 1 } else { 0 }) / 2
}

/// The verdict of `phase14_validate_table_invariants`.
pub open spec fn table_error(t: Phase14CommutationTable, f: Phase14OperatorFamily) -> Option<Seq<char>> {
    let n = f.ops@.len() as int;
    if t.pairs@.len() != expected_pair_count(n) {
        Some(
            "phase14_table_pair_count_mismatch: expected "@ + dec_int(expected_pair_count(n))
                + " got "@ + dec_int(t.pairs@.len() as int),
        )
    } else if t.family_signature@ != f.family_signature@ {
        Some("phase14_table_family_signature_mismatch"@)
    } else if t.table_signature@.len() == 0 {
        Some("phase14_table_signature_empty"@)
    } else {
        None
    }
}

/// One recorded pair matches pair (i, j) of the family's operators.
pub open spec fn table_pair_ok(p: Phase14CommutationPair, ij: (int, int), ops: Seq<Phase14OperatorEntry>) -> bool {
    &&& 0 <= ij.0 < ij.1 < ops.len()
    &&& p.lhs_label@ == ops[ij.0].label@
    &&& p.rhs_label@ == ops[ij.1].label@
    &&& is_table_commutator(p.commutator, ops[ij.0].op, ops[ij.1].op)
}

proof fn lemma_pair_rows_step(i: nat, n: int)
    ensures
        pair_rows(i + 1, n) == pair_rows(i, n) + pair_row(i as int, (i + 1) as int, n),
{
    assert(((i + 1) as nat - 1) as nat == i);
}

proof fn lemma_pair_rows_len(i: nat, n: int)
    requires
        i <= n,
    ensures
        2 * pair_rows(i, n).len() == 2 * i * n - i * (i + 1),
    decreases i,
{
    if i > 0 {
        lemma_pair_rows_len((i - 1) as nat, n);
        let prev = pair_rows((i - 1) as nat, n).len() as int;
        assert(pair_row(i - 1, i as int, n).len() == n - i);
        assert(pair_rows(i, n) == pair_rows((i - 1) as nat, n) + pair_row(i - 1, i as int, n));
        assert(pair_rows(i, n).len() == prev + (n - i));
        assert(2 * (prev + (n - i)) == 2 * i * n - i * (i + 1)) by (nonlinear_arith)
            requires
                2 * prev == 2 * (i - 1) * n - (i - 1) * i,
        ;
        assert(2 * pair_rows(i, n).len() == 2 * i * n - i * (i + 1));
    } else {
        assert(pair_rows(0, n) =~= Seq::<(int, int)>::empty());
        assert(2 * i * n - i * (i + 1) == 0) by (nonlinear_arith)
            requires
                i == 0,
        ;
    }
}

/// Commutators of the integer operators: every operator commutes with
/// itself; Pauli X and Pauli Z do not commute, [X, Z] = XZ - ZX being
/// [[0, -2], [2, 0]]; and swapping the operands negates the commutator.
pub proof fn lemma_commutator_laws(
    c1: Phase14Commutator,
    c2: Phase14Commutator,
    a: Phase13QubitUnaryOp,
    b: Phase13QubitUnaryOp,
)
    requires
        int_matrix(a) is Some,
        int_matrix(b) is Some,
        is_commutator(c1, a, b),
        is_commutator(c2, b, a),
    ensures
        a == b ==> c1.is_zero && matrix_of(c1) == (0int, 0int, 0int, 0int),
        a == Phase13QubitUnaryOp::PauliX && b == Phase13QubitUnaryOp::PauliZ ==> !c1.is_zero && matrix_of(c1)
            == (0int, -2int, 2int, 0int),
        matrix_of(c1) == (-matrix_of(c2).0, -matrix_of(c2).1, -matrix_of(c2).2, -matrix_of(c2).3),
        c1.is_zero == c2.is_zero,
{
    if a == Phase13QubitUnaryOp::PauliX && b == Phase13QubitUnaryOp::PauliZ {
        assert(int_matrix(a)->0 == (0int, 1int, 1int, 0int));
        assert(int_matrix(b)->0 == (1int, 0int, 0int, -1int));
        let x = (0int, 1int, 1int, 0int);
        let z = (1int, 0int, 0int, -1int);
        let xz = mat_mul(x, z);
        let zx = mat_mul(z, x);
        assert(xz.0 == 0 && xz.1 == -1 && xz.2 == 1 && xz.3 == 0) by (nonlinear_arith)
            requires xz == mat_mul(x, z), x == (0int, 1int, 1int, 0int), z == (1int, 0int, 0int, -1int);
        assert(zx.0 == 0 && zx.1 == 1 && zx.2 == -1 && zx.3 == 0) by (nonlinear_arith)
            requires zx == mat_mul(z, x), x == (0int, 1int, 1int, 0int), z == (1int, 0int, 0int, -1int);
    }
}

/// Every ordered pair of `n` operators, once: `n (n - 1) / 2` of them.
pub proof fn lemma_all_pairs_len(n: nat)
    ensures
        all_pairs(n).len() == expected_pair_count(n as int),
{
    lemma_pair_rows_len(n, n as int);
    let l = all_pairs(n).len() as int;
    let m = n as int;
    if m >= 1 {
        assert(l == m * (m - 1) / 2) by (nonlinear_arith)
            requires
                2 * l == 2 * m * m - m * (m + 1),
        ;
        assert(expected_pair_count(m) == m * (m - 1) / 2);
    } else {
        assert(l == 0);
        assert(m * 0 / 2 == 0) by (nonlinear_arith);
        assert(expected_pair_count(m) == 0);
    }
}

/// A commutation table built from a family passes table validation
/// against that family.
pub proof fn lemma_built_table_is_valid(t: Phase14CommutationTable, family: Phase14OperatorFamily)
    requires
        is_table_of(t, family),
    ensures
        table_error(t, family) is None,
{
    lemma_all_pairs_len(family.ops@.len());
    lemma_hash16_len("family="@ + family.family_signature@ + "|pairs="@ + join(pair_sigs(t.pairs@), "|"@));
}

// ── construction ─────────────────────────────────────────────────────────────

fn phase14_op_name(op: Phase13QubitUnaryOp) -> (s: &'static str)
    ensures
        s@ == op_name(op),
{
    match op {
        Phase13QubitUnaryOp::PauliX => "PauliX",
        Phase13QubitUnaryOp::PauliZ => "PauliZ",
        Phase13QubitUnaryOp::FixedHadamard => "FixedHadamard",
    }
}

fn phase14_kind_name(k: Phase14OperatorFamilyKind) -> (s: &'static str)
    ensures
        s@ == family_kind_name(k),
{
    match k {
        Phase14OperatorFamilyKind::PauliGroup => "PauliGroup",
        Phase14OperatorFamilyKind::CliffordFamily => "CliffordFamily",
        Phase14OperatorFamilyKind::Mixed => "Mixed",
    }
}

fn phase14_entry(op: Phase13QubitUnaryOp, label: &str) -> (e: Phase14OperatorEntry)
    ensures
        is_entry(e, op, label@),
{
    let mut input = text("op=");
    push_str(&mut input, phase14_op_name(op));
    push_str(&mut input, "|label=");
    push_str(&mut input, label);
    Phase14OperatorEntry { op, label: text(label), matrix_signature: hash_text(input.as_str()) }
}

fn phase14_assemble_family(
    name: &str,
    kind: Phase14OperatorFamilyKind,
    ops: Vec<Phase14OperatorEntry>,
) -> (f: Phase14OperatorFamily)
    ensures
        is_assembled_family(f, name@, kind),
        f.ops@ == ops@,
{
    let mut labels: Vec<String> = Vec::new();
    let mut i: usize = 0;
    while i < ops.len()
        invariant
            i <= ops@.len(),
            labels@.len() == i,
            forall|k: int| 0 <= k < i ==> #[trigger] labels@[k]@ == ops@[k].label@,
        decreases ops@.len() - i,
    {
        labels.push(ops[i].label.clone());
        i = i + 1;
    }
    assert(views(labels@) =~= entry_labels(ops@));
    let mut input = text("name=");
    push_str(&mut input, name);
    push_str(&mut input, "|kind=");
    push_str(&mut input, phase14_kind_name(kind));
    push_str(&mut input, "|ops=[");
    let joined = join_strings(&labels, ",");
    push_str(&mut input, joined.as_str());
    push_str(&mut input, "]");
    let family_signature = hash_text(input.as_str());
    let family_well_formed = ops.len() > 0 && !name.is_empty();
    Phase14OperatorFamily {
        family_name: text(name),
        family_kind: kind,
        ops,
        family_signature,
        family_well_formed,
    }
}

/// `f` is the Pauli family `pauli_xz`: `PauliX`, then `PauliZ`.
pub open spec fn is_pauli_family(f: Phase14OperatorFamily) -> bool {
    &&& is_assembled_family(f, "pauli_xz"@, Phase14OperatorFamilyKind::PauliGroup)
    &&& f.ops@.len() == 2
    &&& is_entry(f.ops@[0], Phase13QubitUnaryOp::PauliX, "PauliX"@)
    &&& is_entry(f.ops@[1], Phase13QubitUnaryOp::PauliZ, "PauliZ"@)
}

/// `t` is the commutation table of every ordered pair of `family`'s entries.
pub open spec fn is_table_of(t: Phase14CommutationTable, family: Phase14OperatorFamily) -> bool {
    &&& t.family_signature@ == family.family_signature@
    &&& t.pairs@.len() == all_pairs(family.ops@.len()).len()
    &&& forall|k: int|
        0 <= k < t.pairs@.len() ==> table_pair_ok(
            #[trigger] t.pairs@[k],
            all_pairs(family.ops@.len())[k],
            family.ops@,
        )
    &&& t.table_signature@ == hash16(
        "family="@ + family.family_signature@ + "|pairs="@ + join(pair_sigs(t.pairs@), "|"@),
    )
}

/// The canonical Pauli family { X, Z }.
pub fn phase14_build_pauli_family() -> (f: Phase14OperatorFamily)
    ensures
        is_pauli_family(f),
{
    let mut ops: Vec<Phase14OperatorEntry> = Vec::new();
    ops.push(phase14_entry(Phase13QubitUnaryOp::PauliX, "PauliX"));
    ops.push(phase14_entry(Phase13QubitUnaryOp::PauliZ, "PauliZ"));
    phase14_assemble_family("pauli_xz", Phase14OperatorFamilyKind::PauliGroup, ops)
}

/// The minimal Clifford family { X, Z, H }.
pub fn phase14_build_clifford_family() -> (f: Phase14OperatorFamily)
    ensures
        is_assembled_family(f, "clifford_xzh"@, Phase14OperatorFamilyKind::CliffordFamily),
        f.ops@.len() == 3,
        is_entry(f.ops@[0], Phase13QubitUnaryOp::PauliX, "PauliX"@),
        is_entry(f.ops@[1], Phase13QubitUnaryOp::PauliZ, "PauliZ"@),
        is_entry(f.ops@[2], Phase13QubitUnaryOp::FixedHadamard, "FixedHadamard"@),
{
    let mut ops: Vec<Phase14OperatorEntry> = Vec::new();
    ops.push(phase14_entry(Phase13QubitUnaryOp::PauliX, "PauliX"));
    ops.push(phase14_entry(Phase13QubitUnaryOp::PauliZ, "PauliZ"));
    ops.push(phase14_entry(Phase13QubitUnaryOp::FixedHadamard, "FixedHadamard"));
    phase14_assemble_family("clifford_xzh", Phase14OperatorFamilyKind::CliffordFamily, ops)
}

fn phase14_integer_matrix(op: Phase13QubitUnaryOp) -> (r: Result<[[i16; 2]; 2], String>)
    ensures
        match r {
            Ok(m) => int_matrix(op) == Some(
                (m[0][0] as int, m[0][1] as int, m[1][0] as int, m[1][1] as int),
            ),
            Err(e) => int_matrix(op) is None
                && e@ == "phase14_integer_matrix_unsupported_for_fixed_hadamard"@,
        },
{
    match op {
        Phase13QubitUnaryOp::PauliX => Ok([[0, 1], [1, 0]]),
        Phase13QubitUnaryOp::PauliZ => Ok([[1, 0], [0, -1]]),
        Phase13QubitUnaryOp::FixedHadamard => Err(
            text("phase14_integer_matrix_unsupported_for_fixed_hadamard"),
        ),
    }
}

fn unit_mul16(a: i16, b: i16) -> (r: i16)
    requires
        -1 <= a <= 1,
        -1 <= b <= 1,
    ensures
        r == a * b,
        -1 <= r <= 1,
{
    if a == 0 || b == 0 {
        assert((a as int) * (b as int) == 0) by (nonlinear_arith)
            requires
                a == 0 || b == 0,
        ;
        0
    } else if a == b {
        assert((a as int) * (b as int) == 1) by (nonlinear_arith)
            requires
                a == b,
                a == 1 || a == -1,
        ;
        1
    } else {
        assert((a as int) * (b as int) == -1) by (nonlinear_arith)
            requires
                a == -b,
                a == 1 || a == -1,
        ;
        -1
    }
}

/// The product of two unit integer matrices.
fn phase14_matmul_i16(a: &[[i16; 2]; 2], b: &[[i16; 2]; 2]) -> (m: [[i16; 2]; 2])
    requires
        forall|i: int, j: int| 0 <= i < 2 && 0 <= j < 2 ==> -1 <= #[trigger] a[i][j] <= 1,
        forall|i: int, j: int| 0 <= i < 2 && 0 <= j < 2 ==> -1 <= #[trigger] b[i][j] <= 1,
    ensures
        (m[0][0] as int, m[0][1] as int, m[1][0] as int, m[1][1] as int) == mat_mul(
            (a[0][0] as int, a[0][1] as int, a[1][0] as int, a[1][1] as int),
            (b[0][0] as int, b[0][1] as int, b[1][0] as int, b[1][1] as int),
        ),
        forall|i: int, j: int| 0 <= i < 2 && 0 <= j < 2 ==> -2 <= #[trigger] m[i][j] <= 2,
{
    assert(-1 <= a[0][0] <= 1 && -1 <= a[0][1] <= 1 && -1 <= a[1][0] <= 1 && -1 <= a[1][1] <= 1);
    assert(-1 <= b[0][0] <= 1 && -1 <= b[0][1] <= 1 && -1 <= b[1][0] <= 1 && -1 <= b[1][1] <= 1);
    let m00 = unit_mul16(a[0][0], b[0][0]) + unit_mul16(a[0][1], b[1][0]);
    let m01 = unit_mul16(a[0][0], b[0][1]) + unit_mul16(a[0][1], b[1][1]);
    let m10 = unit_mul16(a[1][0], b[0][0]) + unit_mul16(a[1][1], b[1][0]);
    let m11 = unit_mul16(a[1][0], b[0][1]) + unit_mul16(a[1][1], b[1][1]);
    [[m00, m01], [m10, m11]]
}

/// [lhs, rhs] = lhs*rhs - rhs*lhs; refused when either operator is the Hadamard.
pub fn phase14_compute_commutator(lhs: Phase13QubitUnaryOp, rhs: Phase13QubitUnaryOp) -> (r: Result<
    Phase14Commutator,
    String,
>)
    ensures
        match r {
            Ok(c) => int_matrix(lhs) is Some && int_matrix(rhs) is Some && is_commutator(c, lhs, rhs),
            Err(e) => (int_matrix(lhs) is None || int_matrix(rhs) is None)
                && e@ == "phase14_integer_matrix_unsupported_for_fixed_hadamard"@,
        },
{
    let a = match phase14_integer_matrix(lhs) {
        Ok(m) => m,
        Err(e) => return Err(e),
    };
    let b = match phase14_integer_matrix(rhs) {
        Ok(m) => m,
        Err(e) => return Err(e),
    };
    let ab = phase14_matmul_i16(&a, &b);
    let ba = phase14_matmul_i16(&b, &a);
    assert(-2 <= ab[0][0] <= 2 && -2 <= ab[0][1] <= 2 && -2 <= ab[1][0] <= 2 && -2 <= ab[1][1] <= 2);
    assert(-2 <= ba[0][0] <= 2 && -2 <= ba[0][1] <= 2 && -2 <= ba[1][0] <= 2 && -2 <= ba[1][1] <= 2);
    let m00 = ab[0][0] - ba[0][0];
    let m01 = ab[0][1] - ba[0][1];
    let m10 = ab[1][0] - ba[1][0];
    let m11 = ab[1][1] - ba[1][1];
    let matrix = [[m00, m01], [m10, m11]];
    let is_zero = m00 == 0 && m01 == 0 && m10 == 0 && m11 == 0;
    let mut input = text("comm=[");
    push_i64(&mut input, m00 as i64);
    push_str(&mut input, ",");
    push_i64(&mut input, m01 as i64);
    push_str(&mut input, ",");
    push_i64(&mut input, m10 as i64);
    push_str(&mut input, ",");
    push_i64(&mut input, m11 as i64);
    push_str(&mut input, "]");
    let commutator_signature = hash_text(input.as_str());
    Ok(Phase14Commutator { matrix, is_zero, commutator_signature })
}

/// The pairwise commutation table of a family, pairs (i, j) with i < j in
/// lexicographic order; pairs involving the Hadamard carry a fixed sentinel.
pub fn phase14_build_commutation_table(family: &Phase14OperatorFamily) -> (t: Phase14CommutationTable)
    ensures
        is_table_of(t, *family),
{
    let n = family.ops.len();
    let ghost nn = n as int;
    let mut pairs: Vec<Phase14CommutationPair> = Vec::new();
    let mut i: usize = 0;
    while i < n
        invariant
            n == family.ops@.len(),
            nn == n as int,
            i <= n,
            pairs@.len() == pair_rows(i as nat, nn).len(),
            forall|k: int|
                0 <= k < pairs@.len() ==> table_pair_ok(#[trigger] pairs@[k], pair_rows(i as nat, nn)[k], family.ops@),
        decreases n - i,
    {
        let ghost before = pairs@;
        let ghost rows_before = pair_rows(i as nat, nn);
        let mut j: usize = i + 1;
        while j < n
            invariant
                n == family.ops@.len(),
                nn == n as int,
                i < n,
                i + 1 <= j <= n,
                before.len() == rows_before.len(),
                pairs@.len() == before.len() + (j - (i + 1)),
                forall|k: int| 0 <= k < before.len() ==> pairs@[k] == #[trigger] before[k],
                forall|m: int|
                    before.len() <= m < pairs@.len() ==> table_pair_ok(
                        #[trigger] pairs@[m],
                        (i as int, i + 1 + (m - before.len())),
                        family.ops@,
                    ),
            decreases n - j,
        {
            let lhs = &family.ops[i];
            let rhs = &family.ops[j];
            let commutator = match phase14_compute_commutator(lhs.op, rhs.op) {
                Ok(c) => c,
                Err(_) => Phase14Commutator {
                    matrix: [[0, 0], [0, 0]],
                    is_zero: false,
                    commutator_signature: text("irrational_pair_sentinel"),
                },
            };
            pairs.push(
                Phase14CommutationPair {
                    lhs_label: lhs.label.clone(),
                    rhs_label: rhs.label.clone(),
                    commutator,
                },
            );
            j = j + 1;
        }
        proof {
            let row = pair_row(i as int, i + 1, nn);
            lemma_pair_rows_step(i as nat, nn);
            let next = pair_rows((i + 1) as nat, nn);
            assert(next =~= rows_before + row);
            assert forall|k: int| 0 <= k < pairs@.len() implies table_pair_ok(
                #[trigger] pairs@[k],
                next[k],
                family.ops@,
            ) by {
                if k < before.len() {
                    assert(pairs@[k] == before[k]);
                    assert(next[k] == rows_before[k]);
                } else {
                    assert(row.len() == nn - (i + 1));
                    assert(next[k] == row[k - rows_before.len()]);
                }
            }
        }
        i = i + 1;
    }
    let mut sigs: Vec<String> = Vec::new();
    let mut k: usize = 0;
    while k < pairs.len()
        invariant
            k <= pairs@.len(),
            sigs@.len() == k,
            forall|m: int|
                0 <= m < k ==> #[trigger] sigs@[m]@ == pairs@[m].commutator.commutator_signature@,
        decreases pairs@.len() - k,
    {
        sigs.push(pairs[k].commutator.commutator_signature.clone());
        k = k + 1;
    }
    assert(views(sigs@) =~= pair_sigs(pairs@));
    let joined = join_strings(&sigs, "|");
    let mut input = text("family=");
    push_str(&mut input, family.family_signature.as_str());
    push_str(&mut input, "|pairs=");
    push_str(&mut input, joined.as_str());
    let table_signature = hash_text(input.as_str());
    Phase14CommutationTable {
        family_signature: family.family_signature.clone(),
        pairs,
        table_signature,
    }
}

/// Checks the family governance invariants; labels must be unique.
pub fn phase14_validate_family_invariants(family: &Phase14OperatorFamily) -> (r: Result<(), String>)
    ensures
        match r {
            Ok(_) => family_error(*family) is None,
            Err(e) => family_error(*family) == Some(e@),
        },
{
    if !family.family_well_formed {
        return Err(text("phase14_family_marked_malformed"));
    }
    if family.ops.len() == 0 {
        return Err(text("phase14_family_has_no_operators"));
    }
    if is_blank(&family.family_name) {
        return Err(text("phase14_family_name_empty"));
    }
    if is_blank(&family.family_signature) {
        return Err(text("phase14_family_signature_empty"));
    }
    let ghost labels = entry_labels(family.ops@);
    let mut k: usize = 0;
    while k < family.ops.len()
        invariant
            k <= family.ops@.len(),
            labels == entry_labels(family.ops@),
            first_repeat(labels, 0) == first_repeat(labels, k as int),
            family.family_well_formed,
            family.family_name@.len() > 0,
            family.family_signature@.len() > 0,
        decreases family.ops@.len() - k,
    {
        let mut j: usize = 0;
        while j < k
            invariant
                j <= k < family.ops@.len(),
                labels == entry_labels(family.ops@),
                first_repeat(labels, 0) == first_repeat(labels, k as int),
                family.family_well_formed,
                family.family_name@.len() > 0,
                family.family_signature@.len() > 0,
                forall|m: int| 0 <= m < j ==> labels[m] != labels[k as int],
            decreases k - j,
        {
            if same_text(&family.ops[j].label, &family.ops[k].label) {
                assert(labels[j as int] == family.ops@[j as int].label@);
                assert(labels[k as int] == family.ops@[k as int].label@);
                assert(labels[j as int] == labels[k as int]);
                assert(first_repeat(labels, k as int) == Some(k as int));
                let mut e = text("phase14_duplicate_operator_label: ");
                push_str(&mut e, family.ops[k].label.as_str());
                assert(first_repeat(entry_labels(family.ops@), 0) == Some(k as int));
                assert(e@ == "phase14_duplicate_operator_label: "@ + entry_labels(family.ops@)[k as int]);
                assert(family_error(*family) == Some(e@));
                return Err(e);
            }
            j = j + 1;
        }
        assert(!(exists|m: int| 0 <= m < k && labels[m] == labels[k as int]));
        k = k + 1;
    }
    Ok(())
}

/// Checks that a table covers every pair of its family and carries its signature.
pub fn phase14_validate_table_invariants(
    table: &Phase14CommutationTable,
    family: &Phase14OperatorFamily,
) -> (r: Result<(), String>)
    requires
        family.ops@.len() * (if family.ops@.len() >= 1 { family.ops@.len() - 1 } else { 0 })
            <= usize::MAX,
    ensures
        match r {
            Ok(_) => table_error(*table, *family) is None,
            Err(e) => table_error(*table, *family) == Some(e@),
        },
{
    let n = family.ops.len();
    let m = if n >= 1 { n - 1 } else { 0 };
    let expected = n * m / 2;
    if table.pairs.len() != expected {
        let mut e = text("phase14_table_pair_count_mismatch: expected ");
        push_usize(&mut e, expected);
        push_str(&mut e, " got ");
        push_usize(&mut e, table.pairs.len());
        return Err(e);
    }
    if !same_text(&table.family_signature, &family.family_signature) {
        return Err(text("phase14_table_family_signature_mismatch"));
    }
    if is_blank(&table.table_signature) {
        return Err(text("phase14_table_signature_empty"));
    }
    Ok(())
}

/// How many pairs of a commutation table do not commute.
pub open spec fn non_commuting(pairs: Seq<Phase14CommutationPair>) -> nat
    decreases pairs.len(),
{
    if pairs.len() == 0 {
        0
    } else {
        non_commuting(pairs.drop_last()) + if pairs.last().commutator.is_zero {
            0nat
        } else {
            1nat
        }
    }
}

proof fn lemma_non_commuting_bound(pairs: Seq<Phase14CommutationPair>)
    ensures
        non_commuting(pairs) <= pairs.len(),
    decreases pairs.len(),
{
    if pairs.len() > 0 {
        lemma_non_commuting_bound(pairs.drop_last());
    }
}

/// The telemetry line published for a family and its commutation table.
pub open spec fn algebra_line(f: Phase14OperatorFamily, t: Phase14CommutationTable) -> Seq<char> {
    let nc = non_commuting(t.pairs@);
    "family="@ + f.family_name@ + ":kind="@ + family_kind_name(f.family_kind) + ":op_count="@
        + dec_nat(f.ops@.len()) + ":pairs="@ + dec_nat(t.pairs@.len()) + ":commuting="@
        + dec_nat((t.pairs@.len() - nc) as nat) + ":non_commuting="@ + dec_nat(nc)
        + ":family_sig="@ + f.family_signature@ + ":table_sig="@ + t.table_signature@
        + ":well_formed="@ + bool_text(f.family_well_formed)
}

/// The telemetry line published for a family.
pub open spec fn family_line(f: Phase14OperatorFamily) -> Seq<char> {
    "family="@ + f.family_name@ + ":kind="@ + family_kind_name(f.family_kind) + ":ops=["@
        + join(entry_labels(f.ops@), ","@) + "]:signature="@ + f.family_signature@
        + ":well_formed="@ + bool_text(f.family_well_formed)
}

/// The telemetry line for a family and its commutation table.
pub fn phase14_algebra_telemetry_line(
    family: &Phase14OperatorFamily,
    table: &Phase14CommutationTable,
) -> (line: String)
    ensures
        line@ == algebra_line(*family, *table),
{
    let mut nc: usize = 0;
    let mut i: usize = 0;
    while i < table.pairs.len()
        invariant
            i <= table.pairs@.len(),
            nc == non_commuting(table.pairs@.subrange(0, i as int)),
            nc <= i,
        decreases table.pairs@.len() - i,
    {
        proof {
            assert(table.pairs@.subrange(0, i + 1).drop_last() =~= table.pairs@.subrange(0, i as int));
        }
        if !table.pairs[i].commutator.is_zero {
            nc = nc + 1;
        }
        i = i + 1;
    }
    proof {
        assert(table.pairs@.subrange(0, table.pairs@.len() as int) =~= table.pairs@);
    }
    let mut line = text("family=");
    push_str(&mut line, family.family_name.as_str());
    push_str(&mut line, ":kind=");
    push_str(&mut line, phase14_kind_name(family.family_kind));
    push_str(&mut line, ":op_count=");
    push_usize(&mut line, family.ops.len());
    push_str(&mut line, ":pairs=");
    push_usize(&mut line, table.pairs.len());
    push_str(&mut line, ":commuting=");
    push_usize(&mut line, table.pairs.len() - nc);
    push_str(&mut line, ":non_commuting=");
    push_usize(&mut line, nc);
    push_str(&mut line, ":family_sig=");
    push_str(&mut line, family.family_signature.as_str());
    push_str(&mut line, ":table_sig=");
    push_str(&mut line, table.table_signature.as_str());
    push_str(&mut line, ":well_formed=");
    push_bool(&mut line, family.family_well_formed);
    line
}

/// The telemetry line for a family.
pub fn phase14_family_telemetry_line(family: &Phase14OperatorFamily) -> (line: String)
    ensures
        line@ == family_line(*family),
{
    let mut labels: Vec<String> = Vec::new();
    let mut i: usize = 0;
    while i < family.ops.len()
        invariant
            i <= family.ops@.len(),
            labels@.len() == i,
            views(labels@) == entry_labels(family.ops@.subrange(0, i as int)),
        decreases family.ops@.len() - i,
    {
        let l = family.ops[i].label.clone();
        proof {
            assert(l@ == family.ops@[i as int].label@);
        }
        let ghost before = labels@;
        labels.push(l);
        i = i + 1;
        proof {
            assert(labels@ == before.push(l));
            assert(views(labels@) =~= entry_labels(family.ops@.subrange(0, i as int))) by {
                assert forall|k: int| 0 <= k < i implies #[trigger] views(labels@)[k]
                    == entry_labels(family.ops@.subrange(0, i as int))[k] by {
                    if k < i - 1 {
                        assert(views(before)[k] == entry_labels(family.ops@.subrange(0, i - 1))[k]);
                    }
                }
            }
        }
    }
    proof {
        assert(family.ops@.subrange(0, family.ops@.len() as int) =~= family.ops@);
    }
    let joined = join_strings(&labels, ",");
    let mut line = text("family=");
    push_str(&mut line, family.family_name.as_str());
    push_str(&mut line, ":kind=");
    push_str(&mut line, phase14_kind_name(family.family_kind));
    push_str(&mut line, ":ops=[");
    push_str(&mut line, joined.as_str());
    push_str(&mut line, "]:signature=");
    push_str(&mut line, family.family_signature.as_str());
    push_str(&mut line, ":well_formed=");
    push_bool(&mut line, family.family_well_formed);
    line
}

} // verus!
