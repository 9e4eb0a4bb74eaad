//! Continuity-weighted influence fields: how far and how strongly a seed's
//! geometry reaches, from its continuity weight and delta magnitude.
use vstd::prelude::*;
use crate::cognition::phase90_geometric_cognitive_seed::Phase90GeometricCognitiveSeed;
use crate::text::{bool_text, dec_int, dec_nat, default_hash_str_str_u8, hex_nat, hex_text,
    push_bool, push_i64, push_str, push_u64, push_usize, std_hash_of_str_str_u8, text};

verus! {

/// A seed's influence field.
#[derive(Debug, Clone, PartialEq, Eq)]
pub struct Phase90ContinuityWeightedGeometryField {
    pub episode_id: String,
    pub field_strength: u8,
    pub influence_decay_rate: u8,
    pub field_radius: u16,
    pub field_signature: String,
    pub field_profile_hash: String,
    pub source_context_count: usize,
    pub source_delta_magnitude: i32,
    pub field_well_formed: bool,
}

// ── model ────────────────────────────────────────────────────────────────────

pub open spec fn clamp(v: int, lo: int, hi: int) -> int {
    if v < lo {
        lo
    } else if v > hi {
        hi
    } else {
        v
    }
}

/// Decay falls as strength rises: `100 - strength / 2`, clamped to 10..=90.
pub open spec fn decay_rate(strength: int) -> int {
    clamp(100 - (strength * 50) / 100, 10, 90)
}

/// Ten units of radius per unit of delta magnitude, clamped to 50..=500.
pub open spec fn field_radius(total_delta: int) -> int {
    clamp(
        (if total_delta < 0 {
            -total_delta
        } else {
            total_delta
        }) * 10,
        50,
        500,
    )
}

pub open spec fn field_sig(seed: Phase90GeometricCognitiveSeed) -> Seq<char> {
    let strength = seed.continuity_weight_percent as int;
    "episode="@ + seed.episode_id@ + "|strength="@ + dec_int(strength) + "|decay_rate="@ + dec_int(
        decay_rate(strength),
    ) + "|radius="@ + dec_int(field_radius(seed.total_delta_magnitude as int)) + "|contexts="@
        + dec_nat(seed.semantic_anchor_contexts@.len()) + "|delta_magnitude="@ + dec_int(
        seed.total_delta_magnitude as int,
    )
}

/// `f` is the influence field of `seed`.
pub open spec fn is_field_of_seed(
    f: Phase90ContinuityWeightedGeometryField,
    seed: Phase90GeometricCognitiveSeed,
) -> bool {
    let strength = seed.continuity_weight_percent as int;
    let sig = field_sig(seed);
    &&& f.episode_id@ == seed.episode_id@
    &&& f.field_strength == seed.continuity_weight_percent
    &&& f.influence_decay_rate == decay_rate(strength)
    &&& f.field_radius == field_radius(seed.total_delta_magnitude as int)
    &&& f.field_signature@ == sig
    &&& f.field_profile_hash@ == hex_nat(
        std_hash_of_str_str_u8(sig, seed.seed_content_hash@, seed.continuity_weight_percent) as nat,
    )
    &&& f.source_context_count == seed.semantic_anchor_contexts@.len()
    &&& f.source_delta_magnitude == seed.total_delta_magnitude
    &&& f.field_well_formed == (seed.geometry_well_formed && seed.semantic_anchor_contexts@.len()
        > 0 && strength > 0)
}

/// The seed's delta magnitude, taken absolute and scaled by ten, fits `u32`.
pub open spec fn radius_fits(seed: Phase90GeometricCognitiveSeed) -> bool {
    &&& seed.total_delta_magnitude != i32::MIN
    &&& (if seed.total_delta_magnitude < 0 {
        -seed.total_delta_magnitude
    } else {
        seed.total_delta_magnitude as int
    }) * 10 <= u32::MAX
}

/// The telemetry line published for a field.
pub open spec fn field_line(f: Phase90ContinuityWeightedGeometryField) -> Seq<char> {
    "episode_id="@ + f.episode_id@ + ":field_strength="@ + dec_nat(f.field_strength as nat)
        + ":decay_rate="@ + dec_nat(f.influence_decay_rate as nat) + ":radius="@ + dec_nat(
        f.field_radius as nat,
    ) + ":contexts="@ + dec_nat(f.source_context_count as nat) + ":delta_magnitude="@ + dec_int(
        f.source_delta_magnitude as int,
    ) + ":field_signature="@ + f.field_signature@ + ":profile_hash="@ + f.field_profile_hash@
        + ":well_formed="@ + bool_text(f.field_well_formed)
}

/// How fields scale with their seeds: the decay rate lies in 10..=90 and
/// falls (never rises) as the continuity strength rises, and is 100 minus
/// half the strength where that lies in range; the radius lies in 50..=500
/// and grows (never shrinks) with the magnitude of the seed's delta, and is
/// ten times that magnitude where that lies in range; a field is well formed
/// exactly when its seed is, has an anchor context and a positive strength.
pub proof fn lemma_field_scaling(
    f1: Phase90ContinuityWeightedGeometryField,
    s1: Phase90GeometricCognitiveSeed,
    f2: Phase90ContinuityWeightedGeometryField,
    s2: Phase90GeometricCognitiveSeed,
)
    requires
        is_field_of_seed(f1, s1),
        is_field_of_seed(f2, s2),
    ensures
        10 <= f1.influence_decay_rate <= 90,
        50 <= f1.field_radius <= 500,
        s1.continuity_weight_percent <= s2.continuity_weight_percent ==> f1.influence_decay_rate
            >= f2.influence_decay_rate,
        ({
            let d = 100 - (s1.continuity_weight_percent as int * 50) / 100;
            10 <= d <= 90 ==> f1.influence_decay_rate == d
        }),
        ({
            let m1: int = if s1.total_delta_magnitude < 0 { -s1.total_delta_magnitude } else { s1.total_delta_magnitude as int };
            let m2: int = if s2.total_delta_magnitude < 0 { -s2.total_delta_magnitude } else { s2.total_delta_magnitude as int };
            &&& m1 <= m2 ==> f1.field_radius <= f2.field_radius
            &&& 50 <= m1 * 10 <= 500 ==> f1.field_radius == m1 * 10
        }),
        f1.field_well_formed == (s1.geometry_well_formed && s1.semantic_anchor_contexts@.len() > 0
            && s1.continuity_weight_percent > 0),
{
    let a = s1.continuity_weight_percent as int;
    let b = s2.continuity_weight_percent as int;
    assert(a <= b ==> (a * 50) / 100 <= (b * 50) / 100) by (nonlinear_arith)
        requires
            a >= 0,
    ;
    let m1: int = if s1.total_delta_magnitude < 0 { -s1.total_delta_magnitude } else { s1.total_delta_magnitude as int };
    let m2: int = if s2.total_delta_magnitude < 0 { -s2.total_delta_magnitude } else { s2.total_delta_magnitude as int };
    assert(m1 <= m2 ==> m1 * 10 <= m2 * 10);
}

// ── kernel ───────────────────────────────────────────────────────────────────

/// Forms the continuity-weighted influence field of a seed.
pub fn phase90_form_continuity_weighted_field_from_seed(seed: &Phase90GeometricCognitiveSeed) -> (f:
    Phase90ContinuityWeightedGeometryField)
    requires
        radius_fits(*seed),
    ensures
        is_field_of_seed(f, *seed),
        10 <= f.influence_decay_rate <= 90,
        50 <= f.field_radius <= 500,
{
    let field_strength = seed.continuity_weight_percent;
    let decay_base: i32 = 100i32 - ((field_strength as i32) * 50 / 100);
    let influence_decay_rate: u8 = if decay_base < 10 {
        10
    } else if decay_base > 90 {
        90
    } else {
        decay_base as u8
    };
    let magnitude: u32 = if seed.total_delta_magnitude < 0 {
        (-seed.total_delta_magnitude) as u32
    } else {
        seed.total_delta_magnitude as u32
    };
    let scaled = magnitude * 10;
    let field_radius: u16 = if scaled < 50 {
        50
    } else if scaled > 500 {
        500
    } else {
        scaled as u16
    };
    let mut signature = text("episode=");
    push_str(&mut signature, seed.episode_id.as_str());
    push_str(&mut signature, "|strength=");
    push_i64(&mut signature, field_strength as i64);
    push_str(&mut signature, "|decay_rate=");
    push_i64(&mut signature, influence_decay_rate as i64);
    push_str(&mut signature, "|radius=");
    push_i64(&mut signature, field_radius as i64);
    push_str(&mut signature, "|contexts=");
    push_usize(&mut signature, seed.semantic_anchor_contexts.len());
    push_str(&mut signature, "|delta_magnitude=");
    push_i64(&mut signature, seed.total_delta_magnitude as i64);
    let h = default_hash_str_str_u8(
        signature.as_str(),
        seed.seed_content_hash.as_str(),
        field_strength,
    );
    let field_profile_hash = hex_text(h);
    let field_well_formed = seed.geometry_well_formed && seed.semantic_anchor_contexts.len() > 0
        && field_strength > 0 && 10 <= influence_decay_rate && influence_decay_rate <= 90 && 50
        <= field_radius && field_radius <= 500;
    Phase90ContinuityWeightedGeometryField {
        episode_id: seed.episode_id.clone(),
        field_strength,
        influence_decay_rate,
        field_radius,
        field_signature: signature,
        field_profile_hash,
        source_context_count: seed.semantic_anchor_contexts.len(),
        source_delta_magnitude: seed.total_delta_magnitude,
        field_well_formed,
    }
}

/// The telemetry line for a field.
pub fn phase90_field_telemetry_line(f: &Phase90ContinuityWeightedGeometryField) -> (line: String)
    ensures
        line@ == field_line(*f),
{
    let mut line = text("episode_id=");
    push_str(&mut line, f.episode_id.as_str());
    push_str(&mut line, ":field_strength=");
    push_u64(&mut line, f.field_strength as u64);
    push_str(&mut line, ":decay_rate=");
    push_u64(&mut line, f.influence_decay_rate as u64);
    push_str(&mut line, ":radius=");
    push_u64(&mut line, f.field_radius as u64);
    push_str(&mut line, ":contexts=");
    push_usize(&mut line, f.source_context_count);
    push_str(&mut line, ":delta_magnitude=");
    push_i64(&mut line, f.source_delta_magnitude as i64);
    push_str(&mut line, ":field_signature=");
    push_str(&mut line, f.field_signature.as_str());
    push_str(&mut line, ":profile_hash=");
    push_str(&mut line, f.field_profile_hash.as_str());
    push_str(&mut line, ":well_formed=");
    push_bool(&mut line, f.field_well_formed);
    line
}

} // verus!
