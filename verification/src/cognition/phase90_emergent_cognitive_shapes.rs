//! Emergent cognitive shapes: higher-order structure composed from an
//! ordered set of continuity-weighted fields.
use vstd::prelude::*;
use crate::cognition::phase90_continuity_weighted_fields::Phase90ContinuityWeightedGeometryField;
use crate::text::{bool_text, dec_nat, default_hash_str_u8_u8_u16, hex_nat, hex_text, is_blank, join,
    join_strings, push_bool, push_str, push_u64, push_usize, std_hash_of_str_u8_u8_u16, text,
    views};

verus! {

/// A shape composed from fields.
#[derive(Debug, Clone, PartialEq, Eq)]
pub struct Phase90EmergentCognitiveShape {
    pub episode_span_signature: String,
    pub constituent_field_count: usize,
    pub shape_archetype: String,
    pub aggregate_field_strength: u8,
    pub continuity_envelope_percent: u8,
    pub emergent_radius: u16,
    pub structural_density_percent: u8,
    pub constituent_field_signatures: Vec<String>,
    pub emergent_shape_signature: String,
    pub shape_profile_hash: String,
    pub shape_well_formed: bool,
}

pub type Fields = Seq<Phase90ContinuityWeightedGeometryField>;

// ── model ────────────────────────────────────────────────────────────────────

pub open spec fn sum_strength(fs: Fields, n: int) -> int
    decreases n,
{
    if n <= 0 {
        0
    } else {
        sum_strength(fs, n - 1) + fs[n - 1].field_strength
    }
}

pub open spec fn sum_radius(fs: Fields, n: int) -> int
    decreases n,
{
    if n <= 0 {
        0
    } else {
        sum_radius(fs, n - 1) + fs[n - 1].field_radius
    }
}

/// The context counts, each taken as a `u32` (the low 32 bits), summed.
pub open spec fn sum_contexts(fs: Fields, n: int) -> int
    decreases n,
{
    if n <= 0 {
        0
    } else {
        sum_contexts(fs, n - 1) + (fs[n - 1].source_context_count as u32)
    }
}

pub open spec fn min_strength(fs: Fields, n: int) -> int
    decreases n,
{
    if n <= 1 {
        fs[0].field_strength as int
    } else if (fs[n - 1].field_strength as int) < min_strength(fs, n - 1) {
        fs[n - 1].field_strength as int
    } else {
        min_strength(fs, n - 1)
    }
}

pub open spec fn max_radius(fs: Fields, n: int) -> int
    decreases n,
{
    if n <= 1 {
        fs[0].field_radius as int
    } else if (fs[n - 1].field_radius as int) > max_radius(fs, n - 1) {
        fs[n - 1].field_radius as int
    } else {
        max_radius(fs, n - 1)
    }
}

pub open spec fn clamp(v: int, lo: int, hi: int) -> int {
    if v < lo {
        lo
    } else if v > hi {
        hi
    } else {
        v
    }
}

/// The shape's density: strength per radius in percent (0 without radius),
/// plus up to 20 for contexts, capped at 100.
pub open spec fn density(fs: Fields) -> int {
    let n = fs.len() as int;
    let total_radius = sum_radius(fs, n);
    let base = if total_radius == 0 {
        0
    } else {
        clamp((sum_strength(fs, n) * 100) / total_radius, 0, 100)
    };
    let boost = if sum_contexts(fs, n) < 20 {
        sum_contexts(fs, n)
    } else {
        20
    };
    clamp(base + boost, 0, 100)
}

/// The archetype of a shape with `count` fields and a density.
pub open spec fn archetype(count: int, density: int) -> Seq<char> {
    if count == 1 {
        "singleton"@
    } else if 2 <= count <= 3 {
        if density <= 34 {
            "bridge"@
        } else {
            "chain"@
        }
    } else if 4 <= count <= 6 {
        if density <= 49 {
            "cluster"@
        } else {
            "lattice"@
        }
    } else if density <= 49 {
        "constellation"@
    } else {
        "manifold"@
    }
}

pub open spec fn field_sigs(fs: Fields) -> Seq<Seq<char>> {
    fs.map_values(|f: Phase90ContinuityWeightedGeometryField| f.field_signature@)
}

pub open spec fn field_episodes(fs: Fields) -> Seq<Seq<char>> {
    fs.map_values(|f: Phase90ContinuityWeightedGeometryField| f.episode_id@)
}

/// `s` is the shape composed from the non-empty field list `fs`.
pub open spec fn is_shape_of(s: Phase90EmergentCognitiveShape, fs: Fields) -> bool {
    let n = fs.len() as int;
    let aggregate = sum_strength(fs, n) / n;
    let envelope = min_strength(fs, n);
    let radius = clamp(max_radius(fs, n) + n * 10, 50, 1024);
    let dens = density(fs);
    let arch = archetype(n, dens);
    let span = join(field_episodes(fs), "|"@);
    let sig = "episodes="@ + span + "|fields="@ + dec_nat(n as nat) + "|archetype="@ + arch
        + "|strength="@ + dec_nat(aggregate as nat) + "|envelope="@ + dec_nat(envelope as nat)
        + "|radius="@ + dec_nat(radius as nat) + "|density="@ + dec_nat(dens as nat)
        + "|signatures="@ + join(field_sigs(fs), "||"@);
    &&& s.episode_span_signature@ == span
    &&& s.constituent_field_count == n
    &&& s.shape_archetype@ == arch
    &&& s.aggregate_field_strength == aggregate
    &&& s.continuity_envelope_percent == envelope
    &&& s.emergent_radius == radius
    &&& s.structural_density_percent == dens
    &&& views(s.constituent_field_signatures@) == field_sigs(fs)
    &&& s.emergent_shape_signature@ == sig
    &&& s.shape_profile_hash@ == hex_nat(
        std_hash_of_str_u8_u8_u16(sig, aggregate as u8, envelope as u8, radius as u16) as nat,
    )
    &&& s.shape_well_formed == ((forall|k: int| 0 <= k < n ==> (#[trigger] fs[k]).field_well_formed)
        && aggregate > 0 && envelope > 0)
}

/// The field totals can be taken in `u32` as composition takes them.
pub open spec fn shape_fits(fs: Fields) -> bool {
    let n = fs.len() as int;
    &&& n <= u32::MAX
    &&& sum_strength(fs, n) * 100 <= u32::MAX
    &&& sum_radius(fs, n) <= u32::MAX
    &&& sum_contexts(fs, n) <= u32::MAX
    &&& n > 0 ==> max_radius(fs, n) + n * 10 <= u32::MAX
}

/// The telemetry line published for a shape.
pub open spec fn shape_line(s: Phase90EmergentCognitiveShape) -> Seq<char> {
    "episode_span="@ + s.episode_span_signature@ + ":field_count="@ + dec_nat(
        s.constituent_field_count as nat,
    ) + ":archetype="@ + s.shape_archetype@ + ":aggregate_strength="@ + dec_nat(
        s.aggregate_field_strength as nat,
    ) + ":continuity_envelope="@ + dec_nat(s.continuity_envelope_percent as nat) + ":radius="@
        + dec_nat(s.emergent_radius as nat) + ":density="@ + dec_nat(
        s.structural_density_percent as nat,
    ) + ":shape_signature="@ + s.emergent_shape_signature@ + ":profile_hash="@
        + s.shape_profile_hash@ + ":well_formed="@ + bool_text(s.shape_well_formed)
}

proof fn lemma_sums_monotone(fs: Fields, a: int, b: int)
    requires
        0 <= a <= b <= fs.len(),
    ensures
        0 <= sum_strength(fs, a) <= sum_strength(fs, b),
        0 <= sum_radius(fs, a) <= sum_radius(fs, b),
        0 <= sum_contexts(fs, a) <= sum_contexts(fs, b),
    decreases b - a,
{
    if a < b {
        lemma_sums_monotone(fs, a, b - 1);
    } else {
        lemma_sums_nonneg(fs, a);
    }
}

proof fn lemma_sums_nonneg(fs: Fields, a: int)
    requires
        0 <= a <= fs.len(),
    ensures
        0 <= sum_strength(fs, a),
        0 <= sum_radius(fs, a),
        0 <= sum_contexts(fs, a),
    decreases a,
{
    if a > 0 {
        lemma_sums_nonneg(fs, a - 1);
    }
}

proof fn lemma_min_max_bounds(fs: Fields, n: int)
    requires
        1 <= n <= fs.len(),
    ensures
        0 <= min_strength(fs, n) <= 255,
        0 <= max_radius(fs, n) <= 65535,
    decreases n,
{
    if n > 1 {
        lemma_min_max_bounds(fs, n - 1);
    }
}

proof fn lemma_aggregate_bound(total: int, n: int)
    requires
        n >= 1,
        0 <= total <= 255 * n,
    ensures
        0 <= total / n <= 255,
{
    assert(total / n <= 255) by (nonlinear_arith)
        requires
            n >= 1,
            0 <= total <= 255 * n,
    ;
}

proof fn lemma_strength_bound(fs: Fields, n: int)
    requires
        0 <= n <= fs.len(),
    ensures
        sum_strength(fs, n) <= 255 * n,
    decreases n,
{
    if n > 0 {
        lemma_strength_bound(fs, n - 1);
    }
}

// ── kernel ───────────────────────────────────────────────────────────────────

fn phase90_shape_archetype(field_count: usize, density_percent: u8) -> (s: String)
    ensures
        s@ == archetype(field_count as int, density_percent as int),
{
    if field_count == 1 {
        text("singleton")
    } else if 2 <= field_count && field_count <= 3 {
        if density_percent <= 34 {
            text("bridge")
        } else {
            text("chain")
        }
    } else if 4 <= field_count && field_count <= 6 {
        if density_percent <= 49 {
            text("cluster")
        } else {
            text("lattice")
        }
    } else if density_percent <= 49 {
        text("constellation")
    } else {
        text("manifold")
    }
}

/// Composes a shape from an ordered, non-empty list of fields.
pub fn phase90_compose_emergent_cognitive_shape(
    fields: &[Phase90ContinuityWeightedGeometryField],
) -> (r: Result<Phase90EmergentCognitiveShape, String>)
    requires
        shape_fits(fields@),
    ensures
        match r {
            Ok(s) => fields@.len() > 0 && is_shape_of(s, fields@),
            Err(e) => fields@.len() == 0 && e@ == "cannot compose emergent shape from empty field set"@,
        },
{
    if fields.len() == 0 {
        return Err(text("cannot compose emergent shape from empty field set"));
    }
    let ghost fs = fields@;
    let n = fields.len();
    let mut all_fields_well_formed = true;
    let mut total_strength: u32 = 0;
    let mut total_radius: u32 = 0;
    let mut total_contexts: u32 = 0;
    let mut envelope: u8 = fields[0].field_strength;
    let mut max_r: u16 = fields[0].field_radius;
    let mut signatures: Vec<String> = Vec::new();
    let mut episodes: Vec<String> = Vec::new();
    let mut k: usize = 0;
    while k < n
        invariant
            n == fs.len(),
            n > 0,
            fs == fields@,
            shape_fits(fs),
            k <= n,
            all_fields_well_formed == (forall|m: int| 0 <= m < k ==> (#[trigger] fs[m]).field_well_formed),
            total_strength == sum_strength(fs, k as int),
            total_radius == sum_radius(fs, k as int),
            total_contexts == sum_contexts(fs, k as int),
            k > 0 ==> envelope == min_strength(fs, k as int),
            k > 0 ==> max_r == max_radius(fs, k as int),
            k == 0 ==> envelope == fs[0].field_strength && max_r == fs[0].field_radius,
            signatures@.len() == k,
            episodes@.len() == k,
            forall|m: int| 0 <= m < k ==> #[trigger] signatures@[m]@ == fs[m].field_signature@,
            forall|m: int| 0 <= m < k ==> #[trigger] episodes@[m]@ == fs[m].episode_id@,
        decreases n - k,
    {
        let f = &fields[k];
        proof {
            lemma_sums_monotone(fs, k + 1, n as int);
        }
        all_fields_well_formed = all_fields_well_formed && f.field_well_formed;
        total_strength = total_strength + f.field_strength as u32;
        total_radius = total_radius + f.field_radius as u32;
        total_contexts = total_contexts + f.source_context_count as u32;
        if k > 0 && f.field_strength < envelope {
            envelope = f.field_strength;
        }
        if k > 0 && f.field_radius > max_r {
            max_r = f.field_radius;
        }
        signatures.push(f.field_signature.clone());
        episodes.push(f.episode_id.clone());
        k = k + 1;
    }
    proof {
        lemma_strength_bound(fs, n as int);
        lemma_aggregate_bound(sum_strength(fs, n as int), n as int);
        lemma_min_max_bounds(fs, n as int);
    }
    let aggregate_field_strength = (total_strength / (n as u32)) as u8;
    let continuity_envelope_percent = envelope;
    let radius_sum = max_r as u32 + (n as u32) * 10;
    let emergent_radius: u16 = if radius_sum < 50 {
        50
    } else if radius_sum > 1024 {
        1024
    } else {
        radius_sum as u16
    };
    let density_base: u32 = if total_radius == 0 {
        0
    } else {
        let d = (total_strength * 100) / total_radius;
        if d > 100 {
            100
        } else {
            d
        }
    };
    let context_boost: u32 = if total_contexts < 20 {
        total_contexts
    } else {
        20
    };
    let density_sum = density_base + context_boost;
    let structural_density_percent: u8 = if density_sum > 100 {
        100
    } else {
        density_sum as u8
    };
    let shape_archetype = phase90_shape_archetype(n, structural_density_percent);
    assert(views(signatures@) =~= field_sigs(fs));
    assert(views(episodes@) =~= field_episodes(fs));
    let episode_span_signature = join_strings(&episodes, "|");
    let mut signature = text("episodes=");
    push_str(&mut signature, episode_span_signature.as_str());
    push_str(&mut signature, "|fields=");
    push_usize(&mut signature, n);
    push_str(&mut signature, "|archetype=");
    push_str(&mut signature, shape_archetype.as_str());
    push_str(&mut signature, "|strength=");
    push_u64(&mut signature, aggregate_field_strength as u64);
    push_str(&mut signature, "|envelope=");
    push_u64(&mut signature, continuity_envelope_percent as u64);
    push_str(&mut signature, "|radius=");
    push_u64(&mut signature, emergent_radius as u64);
    push_str(&mut signature, "|density=");
    push_u64(&mut signature, structural_density_percent as u64);
    push_str(&mut signature, "|signatures=");
    let joined = join_strings(&signatures, "||");
    push_str(&mut signature, joined.as_str());
    let h = default_hash_str_u8_u8_u16(
        signature.as_str(),
        aggregate_field_strength,
        continuity_envelope_percent,
        emergent_radius,
    );
    let shape_profile_hash = hex_text(h);
    proof {
        reveal_strlit("singleton");
        reveal_strlit("bridge");
        reveal_strlit("chain");
        reveal_strlit("cluster");
        reveal_strlit("lattice");
        reveal_strlit("constellation");
        reveal_strlit("manifold");
    }
    let shape_well_formed = all_fields_well_formed && aggregate_field_strength > 0
        && continuity_envelope_percent > 0 && emergent_radius >= 50 && !is_blank(&shape_archetype);
    assert(aggregate_field_strength == sum_strength(fs, n as int) / (n as int));
    assert(emergent_radius == clamp(max_radius(fs, n as int) + n * 10, 50, 1024));
    assert(structural_density_percent == density(fs));
    Ok(
        Phase90EmergentCognitiveShape {
            episode_span_signature,
            constituent_field_count: n,
            shape_archetype,
            aggregate_field_strength,
            continuity_envelope_percent,
            emergent_radius,
            structural_density_percent,
            constituent_field_signatures: signatures,
            emergent_shape_signature: signature,
            shape_profile_hash,
            shape_well_formed,
        },
    )
}

/// The telemetry line for a shape.
pub fn phase90_shape_telemetry_line(s: &Phase90EmergentCognitiveShape) -> (line: String)
    ensures
        line@ == shape_line(*s),
{
    let mut line = text("episode_span=");
    push_str(&mut line, s.episode_span_signature.as_str());
    push_str(&mut line, ":field_count=");
    push_usize(&mut line, s.constituent_field_count);
    push_str(&mut line, ":archetype=");
    push_str(&mut line, s.shape_archetype.as_str());
    push_str(&mut line, ":aggregate_strength=");
    push_u64(&mut line, s.aggregate_field_strength as u64);
    push_str(&mut line, ":continuity_envelope=");
    push_u64(&mut line, s.continuity_envelope_percent as u64);
    push_str(&mut line, ":radius=");
    push_u64(&mut line, s.emergent_radius as u64);
    push_str(&mut line, ":density=");
    push_u64(&mut line, s.structural_density_percent as u64);
    push_str(&mut line, ":shape_signature=");
    push_str(&mut line, s.emergent_shape_signature.as_str());
    push_str(&mut line, ":profile_hash=");
    push_str(&mut line, s.shape_profile_hash.as_str());
    push_str(&mut line, ":well_formed=");
    push_bool(&mut line, s.shape_well_formed);
    line
}

} // verus!
