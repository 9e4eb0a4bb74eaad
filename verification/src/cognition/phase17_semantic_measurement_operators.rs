//! Semantic measurement: deterministic projections of qubit states, bindings
//! and trajectories onto a small set of semantic labels.
use vstd::prelude::*;
use crate::cognition::phase13_qubit_kernel::{
    measure_bit, phase13_validate_qubit_state_invariants, state_error, state_sig_input,
    Phase13QubitState,
};
use crate::cognition::phase15_two_qubit_semantic_binding::{
    binding_kind_name, phase15_validate_two_qubit_invariants, two_state_error, Phase15BindingKind,
    Phase15TwoQubitState,
};
use crate::cognition::phase16_thought_path_trajectories::{
    phase16_validate_trajectory_invariants, trajectory_error, trajectory_kind_name,
    Phase16ThoughtTrajectory, Phase16TrajectoryKind,
};
use crate::text::{bool_text, push_bool, dec_int, hash16, hash_text, is_blank, join, join_strings, push_i64, push_str,
    push_usize, text, views};

verus! {

/// Canonical semantic categories emitted by the measurement surfaces.
#[derive(Debug, Clone, Copy, PartialEq, Eq, Structural)]
pub enum Phase17SemanticLabel {
    Alignment,
    Contrast,
    Reinforcement,
    Conflict,
    EntanglingInfluence,
}

/// Deterministic semantic projection surfaces.
#[derive(Debug, Clone, Copy, PartialEq, Eq, Structural)]
pub enum Phase17InterpretationSurface {
    ZAlignment,
    BindingKind,
    TrajectoryKind,
}

/// A governed semantic measurement artifact.
#[derive(Debug, Clone, PartialEq, Eq)]
pub struct Phase17SemanticMeasurement {
    pub semantic_surface: Phase17InterpretationSurface,
    pub semantic_label: Phase17SemanticLabel,
    pub source_signature: String,
    pub semantic_signature: String,
    pub telemetry_digest: String,
    pub measurement_well_formed: bool,
}

// ── model ────────────────────────────────────────────────────────────────────

pub open spec fn label_name(l: Phase17SemanticLabel) -> Seq<char> {
    match l {
        Phase17SemanticLabel::Alignment => "Alignment"@,
        Phase17SemanticLabel::Contrast => "Contrast"@,
        Phase17SemanticLabel::Reinforcement => "Reinforcement"@,
        Phase17SemanticLabel::Conflict => "Conflict"@,
        Phase17SemanticLabel::EntanglingInfluence => "EntanglingInfluence"@,
    }
}

pub open spec fn surface_name(s: Phase17InterpretationSurface) -> Seq<char> {
    match s {
        Phase17InterpretationSurface::ZAlignment => "ZAlignment"@,
        Phase17InterpretationSurface::BindingKind => "BindingKind"@,
        Phase17InterpretationSurface::TrajectoryKind => "TrajectoryKind"@,
    }
}

/// The z-alignment label of a Bloch vector.
pub open spec fn z_label(x: int, y: int, z: int) -> Phase17SemanticLabel {
    if z > 0 {
        Phase17SemanticLabel::Alignment
    } else if z < 0 {
        Phase17SemanticLabel::Contrast
    } else if x > 0 || (x == 0 && y >= 0) {
        Phase17SemanticLabel::Reinforcement
    } else {
        Phase17SemanticLabel::Conflict
    }
}

pub open spec fn binding_label(k: Phase15BindingKind) -> Phase17SemanticLabel {
    match k {
        Phase15BindingKind::Correlated => Phase17SemanticLabel::Alignment,
        Phase15BindingKind::AntiCorrelated => Phase17SemanticLabel::Contrast,
        Phase15BindingKind::Separable => Phase17SemanticLabel::Conflict,
        Phase15BindingKind::EntanglingOpApplied => Phase17SemanticLabel::EntanglingInfluence,
    }
}

pub open spec fn trajectory_label(k: Phase16TrajectoryKind) -> Phase17SemanticLabel {
    match k {
        Phase16TrajectoryKind::Degenerate => Phase17SemanticLabel::Alignment,
        Phase16TrajectoryKind::Convergent => Phase17SemanticLabel::Reinforcement,
        Phase16TrajectoryKind::Divergent => Phase17SemanticLabel::Conflict,
        Phase16TrajectoryKind::Entangling => Phase17SemanticLabel::EntanglingInfluence,
    }
}

/// A measurement exactly as the measurement surfaces build it.
pub open spec fn is_measurement(
    m: Phase17SemanticMeasurement,
    surface: Phase17InterpretationSurface,
    label: Phase17SemanticLabel,
    source: Seq<char>,
    trace: Seq<char>,
) -> bool {
    let sem = hash16(
        "surface="@ + surface_name(surface) + "|label="@ + label_name(label) + "|source="@ + source
            + "|trace="@ + trace,
    );
    &&& m.semantic_surface == surface
    &&& m.semantic_label == label
    &&& m.source_signature@ == source
    &&& m.semantic_signature@ == sem
    &&& m.telemetry_digest@ == hash16(
        "surface="@ + surface_name(surface) + "|label="@ + label_name(label)
            + "|semantic_signature="@ + sem + "|source="@ + source,
    )
    &&& m.measurement_well_formed
}

/// The z-alignment measurement of a qubit state.
pub open spec fn is_state_measurement(m: Phase17SemanticMeasurement, state: Phase13QubitState) -> bool {
    is_measurement(
        m,
        Phase17InterpretationSurface::ZAlignment,
        z_label(state.x as int, state.y as int, state.z as int),
        state.state_signature@,
        state_sig_input(state.x as int, state.y as int, state.z as int),
    )
}

/// The binding-kind measurement of a two-qubit binding.
pub open spec fn is_binding_measurement(m: Phase17SemanticMeasurement, state: Phase15TwoQubitState) -> bool {
    is_measurement(
        m,
        Phase17InterpretationSurface::BindingKind,
        binding_label(state.binding_kind),
        state.binding_signature@,
        "binding="@ + binding_kind_name(state.binding_kind),
    )
}

/// The trajectory-kind measurement of a thought trajectory.
pub open spec fn is_trajectory_measurement(
    m: Phase17SemanticMeasurement,
    trajectory: Phase16ThoughtTrajectory,
) -> bool {
    is_measurement(
        m,
        Phase17InterpretationSurface::TrajectoryKind,
        trajectory_label(trajectory.trajectory_kind),
        trajectory.trajectory_signature@,
        "trajectory_kind="@ + trajectory_kind_name(trajectory.trajectory_kind) + "|steps="@ + dec_int(
            trajectory.step_count as int,
        ),
    )
}

/// The labels the three surfaces read. A qubit state above the equator
/// reads Alignment, one below Contrast, one on it Reinforcement when x > 0
/// or (x == 0 and y >= 0) and Conflict otherwise. A binding reads Alignment
/// when Correlated, Contrast when AntiCorrelated, Conflict when Separable,
/// EntanglingInfluence after an entangling operator. A trajectory reads
/// Alignment when Degenerate, Reinforcement when Convergent, Conflict when
/// Divergent, EntanglingInfluence when Entangling.
pub proof fn lemma_measurement_labels(
    ms: Phase17SemanticMeasurement,
    state: Phase13QubitState,
    mb: Phase17SemanticMeasurement,
    binding: Phase15TwoQubitState,
    mt: Phase17SemanticMeasurement,
    trajectory: Phase16ThoughtTrajectory,
)
    ensures
        is_state_measurement(ms, state) ==> {
            &&& state.z > 0 ==> ms.semantic_label == Phase17SemanticLabel::Alignment
            &&& state.z < 0 ==> ms.semantic_label == Phase17SemanticLabel::Contrast
            &&& state.z == 0 && (state.x > 0 || (state.x == 0 && state.y >= 0)) ==> ms.semantic_label
                == Phase17SemanticLabel::Reinforcement
            &&& state.z == 0 && (state.x < 0 || (state.x == 0 && state.y < 0)) ==> ms.semantic_label
                == Phase17SemanticLabel::Conflict
        },
        is_binding_measurement(mb, binding) ==> {
            &&& binding.binding_kind == Phase15BindingKind::Correlated ==> mb.semantic_label
                == Phase17SemanticLabel::Alignment
            &&& binding.binding_kind == Phase15BindingKind::AntiCorrelated ==> mb.semantic_label
                == Phase17SemanticLabel::Contrast
            &&& binding.binding_kind == Phase15BindingKind::Separable ==> mb.semantic_label
                == Phase17SemanticLabel::Conflict
            &&& binding.binding_kind == Phase15BindingKind::EntanglingOpApplied ==> mb.semantic_label
                == Phase17SemanticLabel::EntanglingInfluence
        },
        is_trajectory_measurement(mt, trajectory) ==> {
            &&& trajectory.trajectory_kind == Phase16TrajectoryKind::Degenerate ==> mt.semantic_label
                == Phase17SemanticLabel::Alignment
            &&& trajectory.trajectory_kind == Phase16TrajectoryKind::Convergent ==> mt.semantic_label
                == Phase17SemanticLabel::Reinforcement
            &&& trajectory.trajectory_kind == Phase16TrajectoryKind::Divergent ==> mt.semantic_label
                == Phase17SemanticLabel::Conflict
            &&& trajectory.trajectory_kind == Phase16TrajectoryKind::Entangling ==> mt.semantic_label
                == Phase17SemanticLabel::EntanglingInfluence
        },
{
}

/// The verdict of `phase17_validate_semantic_measurement_invariants`.
pub open spec fn measurement_error(m: Phase17SemanticMeasurement) -> Option<Seq<char>> {
    if !m.measurement_well_formed {
        Some("phase17_measurement_marked_malformed"@)
    } else if m.source_signature@.len() == 0 {
        Some("phase17_source_signature_empty"@)
    } else if m.semantic_signature@.len() == 0 {
        Some("phase17_semantic_signature_empty"@)
    } else if m.telemetry_digest@.len() == 0 {
        Some("phase17_telemetry_digest_empty"@)
    } else {
        None
    }
}

pub open spec fn semantic_sigs(ms: Seq<Phase17SemanticMeasurement>) -> Seq<Seq<char>> {
    ms.map_values(|m: Phase17SemanticMeasurement| m.semantic_signature@)
}

pub open spec fn digests(ms: Seq<Phase17SemanticMeasurement>) -> Seq<Seq<char>> {
    ms.map_values(|m: Phase17SemanticMeasurement| m.telemetry_digest@)
}

// ── surfaces ─────────────────────────────────────────────────────────────────

fn phase17_label_name(l: Phase17SemanticLabel) -> (s: &'static str)
    ensures
        s@ == label_name(l),
{
    match l {
        Phase17SemanticLabel::Alignment => "Alignment",
        Phase17SemanticLabel::Contrast => "Contrast",
        Phase17SemanticLabel::Reinforcement => "Reinforcement",
        Phase17SemanticLabel::Conflict => "Conflict",
        Phase17SemanticLabel::EntanglingInfluence => "EntanglingInfluence",
    }
}

fn phase17_surface_name(s: Phase17InterpretationSurface) -> (r: &'static str)
    ensures
        r@ == surface_name(s),
{
    match s {
        Phase17InterpretationSurface::ZAlignment => "ZAlignment",
        Phase17InterpretationSurface::BindingKind => "BindingKind",
        Phase17InterpretationSurface::TrajectoryKind => "TrajectoryKind",
    }
}

fn phase17_build_measurement(
    surface: Phase17InterpretationSurface,
    label: Phase17SemanticLabel,
    source_signature: &str,
    projection_trace: &str,
) -> (m: Phase17SemanticMeasurement)
    ensures
        is_measurement(m, surface, label, source_signature@, projection_trace@),
{
    let mut input = text("surface=");
    push_str(&mut input, phase17_surface_name(surface));
    push_str(&mut input, "|label=");
    push_str(&mut input, phase17_label_name(label));
    push_str(&mut input, "|source=");
    push_str(&mut input, source_signature);
    push_str(&mut input, "|trace=");
    push_str(&mut input, projection_trace);
    let semantic_signature = hash_text(input.as_str());
    let mut dig = text("surface=");
    push_str(&mut dig, phase17_surface_name(surface));
    push_str(&mut dig, "|label=");
    push_str(&mut dig, phase17_label_name(label));
    push_str(&mut dig, "|semantic_signature=");
    push_str(&mut dig, semantic_signature.as_str());
    push_str(&mut dig, "|source=");
    push_str(&mut dig, source_signature);
    let telemetry_digest = hash_text(dig.as_str());
    Phase17SemanticMeasurement {
        semantic_surface: surface,
        semantic_label: label,
        source_signature: text(source_signature),
        semantic_signature,
        telemetry_digest,
        measurement_well_formed: true,
    }
}

/// Projects a governed qubit state onto the z-alignment surface.
pub fn phase17_measure_semantic(state: &Phase13QubitState) -> (r: Result<
    Phase17SemanticMeasurement,
    String,
>)
    ensures
        match r {
            Ok(m) => state_error(*state) is None && is_state_measurement(m, *state),
            Err(e) => state_error(*state) == Some(e@),
        },
{
    match phase13_validate_qubit_state_invariants(state) {
        Ok(_) => {},
        Err(e) => return Err(e),
    }
    let label = if state.z > 0 {
        Phase17SemanticLabel::Alignment
    } else if state.z < 0 {
        Phase17SemanticLabel::Contrast
    } else if state.x > 0 || (state.x == 0 && state.y >= 0) {
        Phase17SemanticLabel::Reinforcement
    } else {
        Phase17SemanticLabel::Conflict
    };
    let mut trace = text("x=");
    push_i64(&mut trace, state.x as i64);
    push_str(&mut trace, "|y=");
    push_i64(&mut trace, state.y as i64);
    push_str(&mut trace, "|z=");
    push_i64(&mut trace, state.z as i64);
    Ok(
        phase17_build_measurement(
            Phase17InterpretationSurface::ZAlignment,
            label,
            state.state_signature.as_str(),
            trace.as_str(),
        ),
    )
}

/// Projects a governed binding onto the binding-kind surface.
pub fn phase17_measure_binding(state: &Phase15TwoQubitState) -> (r: Result<
    Phase17SemanticMeasurement,
    String,
>)
    ensures
        match r {
            Ok(m) => two_state_error(*state) is None && is_binding_measurement(m, *state),
            Err(e) => two_state_error(*state) == Some(e@),
        },
{
    match phase15_validate_two_qubit_invariants(state) {
        Ok(_) => {},
        Err(e) => return Err(e),
    }
    let (label, name) = match state.binding_kind {
        Phase15BindingKind::Correlated => (Phase17SemanticLabel::Alignment, "Correlated"),
        Phase15BindingKind::AntiCorrelated => (Phase17SemanticLabel::Contrast, "AntiCorrelated"),
        Phase15BindingKind::Separable => (Phase17SemanticLabel::Conflict, "Separable"),
        Phase15BindingKind::EntanglingOpApplied => (
            Phase17SemanticLabel::EntanglingInfluence,
            "EntanglingOpApplied",
        ),
    };
    let mut trace = text("binding=");
    push_str(&mut trace, name);
    Ok(
        phase17_build_measurement(
            Phase17InterpretationSurface::BindingKind,
            label,
            state.binding_signature.as_str(),
            trace.as_str(),
        ),
    )
}

/// Projects a governed trajectory onto the trajectory-kind surface.
pub fn phase17_measure_trajectory(trajectory: &Phase16ThoughtTrajectory) -> (r: Result<
    Phase17SemanticMeasurement,
    String,
>)
    ensures
        match r {
            Ok(m) => trajectory_error(*trajectory) is None && is_trajectory_measurement(m, *trajectory),
            Err(e) => trajectory_error(*trajectory) == Some(e@),
        },
{
    match phase16_validate_trajectory_invariants(trajectory) {
        Ok(_) => {},
        Err(e) => return Err(e),
    }
    let (label, name) = match trajectory.trajectory_kind {
        Phase16TrajectoryKind::Degenerate => (Phase17SemanticLabel::Alignment, "Degenerate"),
        Phase16TrajectoryKind::Convergent => (Phase17SemanticLabel::Reinforcement, "Convergent"),
        Phase16TrajectoryKind::Divergent => (Phase17SemanticLabel::Conflict, "Divergent"),
        Phase16TrajectoryKind::Entangling => (
            Phase17SemanticLabel::EntanglingInfluence,
            "Entangling",
        ),
    };
    let mut trace = text("trajectory_kind=");
    push_str(&mut trace, name);
    push_str(&mut trace, "|steps=");
    push_usize(&mut trace, trajectory.step_count);
    Ok(
        phase17_build_measurement(
            Phase17InterpretationSurface::TrajectoryKind,
            label,
            trajectory.trajectory_signature.as_str(),
            trace.as_str(),
        ),
    )
}

/// Checks the measurement governance invariants.
pub fn phase17_validate_semantic_measurement_invariants(
    measurement: &Phase17SemanticMeasurement,
) -> (r: Result<(), String>)
    ensures
        match r {
            Ok(_) => measurement_error(*measurement) is None,
            Err(e) => measurement_error(*measurement) == Some(e@),
        },
{
    if !measurement.measurement_well_formed {
        return Err(text("phase17_measurement_marked_malformed"));
    }
    if is_blank(&measurement.source_signature) {
        return Err(text("phase17_source_signature_empty"));
    }
    if is_blank(&measurement.semantic_signature) {
        return Err(text("phase17_semantic_signature_empty"));
    }
    if is_blank(&measurement.telemetry_digest) {
        return Err(text("phase17_telemetry_digest_empty"));
    }
    Ok(())
}

/// The phase-level signature of several measurements: hash of their joined semantic signatures.
pub fn phase17_compose_semantic_signature(measurements: &[Phase17SemanticMeasurement]) -> (s: String)
    ensures
        s@ == hash16(join(semantic_sigs(measurements@), "|"@)),
{
    let mut sigs: Vec<String> = Vec::new();
    let mut i: usize = 0;
    while i < measurements.len()
        invariant
            i <= measurements@.len(),
            sigs@.len() == i,
            forall|k: int| 0 <= k < i ==> #[trigger] sigs@[k]@ == measurements@[k].semantic_signature@,
        decreases measurements@.len() - i,
    {
        sigs.push(measurements[i].semantic_signature.clone());
        i = i + 1;
    }
    assert(views(sigs@) =~= semantic_sigs(measurements@));
    let joined = join_strings(&sigs, "|");
    hash_text(joined.as_str())
}

/// The phase-level digest of several measurements: hash of their joined digests.
pub fn phase17_compose_semantic_digest(measurements: &[Phase17SemanticMeasurement]) -> (s: String)
    ensures
        s@ == hash16(join(digests(measurements@), "|"@)),
{
    let mut sigs: Vec<String> = Vec::new();
    let mut i: usize = 0;
    while i < measurements.len()
        invariant
            i <= measurements@.len(),
            sigs@.len() == i,
            forall|k: int| 0 <= k < i ==> #[trigger] sigs@[k]@ == measurements@[k].telemetry_digest@,
        decreases measurements@.len() - i,
    {
        sigs.push(measurements[i].telemetry_digest.clone());
        i = i + 1;
    }
    assert(views(sigs@) =~= digests(measurements@));
    let joined = join_strings(&sigs, "|");
    hash_text(joined.as_str())
}

/// The telemetry line published for a semantic measurement.
pub open spec fn measurement17_line(m: Phase17SemanticMeasurement) -> Seq<char> {
    "surface="@ + surface_name(m.semantic_surface) + ":label="@ + label_name(m.semantic_label)
        + ":source="@ + m.source_signature@ + ":semantic_signature="@ + m.semantic_signature@
        + ":telemetry_digest="@ + m.telemetry_digest@ + ":well_formed="@
        + bool_text(m.measurement_well_formed)
}

/// The telemetry line for a semantic measurement.
pub fn phase17_measurement_telemetry_line(measurement: &Phase17SemanticMeasurement) -> (line: String)
    ensures
        line@ == measurement17_line(*measurement),
{
    let mut line = text("surface=");
    push_str(&mut line, phase17_surface_name(measurement.semantic_surface));
    push_str(&mut line, ":label=");
    push_str(&mut line, phase17_label_name(measurement.semantic_label));
    push_str(&mut line, ":source=");
    push_str(&mut line, measurement.source_signature.as_str());
    push_str(&mut line, ":semantic_signature=");
    push_str(&mut line, measurement.semantic_signature.as_str());
    push_str(&mut line, ":telemetry_digest=");
    push_str(&mut line, measurement.telemetry_digest.as_str());
    push_str(&mut line, ":well_formed=");
    push_bool(&mut line, measurement.measurement_well_formed);
    line
}

} // verus!
