//! Multi-shape interaction dynamics: every manifold edge read as an
//! interaction with a mode, a resonance, a continuity flow and an operator
//! pressure.
use vstd::prelude::*;
use crate::cognition::phase90_cognitive_manifolds::{Phase90CognitiveManifold, Phase90ShapeAdjacencyEdge};
use crate::text::{bool_text, dec_nat, default_hash_str_u8_u8, hex_nat, hex_text, join,
    join_strings, push_bool, push_str, push_u64, push_usize, same_text, std_hash_of_str_u8_u8,
    text, views};

verus! {

#[derive(Debug, Clone, PartialEq, Eq)]
pub struct Phase90ShapeInteractionEvent {
    pub from_shape_index: usize,
    pub to_shape_index: usize,
    pub adjacency_kind: String,
    pub interaction_mode: String,
    pub resonance_score_percent: u8,
    pub continuity_flow_percent: u8,
    pub operator_pressure_percent: u8,
}

#[derive(Debug, Clone, PartialEq, Eq)]
pub struct Phase90MultiShapeInteractionDynamics {
    pub manifold_signature: String,
    pub interaction_count: usize,
    pub dominant_interaction_mode: String,
    pub aggregate_resonance_percent: u8,
    pub aggregate_operator_pressure_percent: u8,
    pub interaction_events: Vec<Phase90ShapeInteractionEvent>,
    pub dynamics_signature: String,
    pub dynamics_profile_hash: String,
    pub dynamics_well_formed: bool,
}

// ── model ────────────────────────────────────────────────────────────────────

pub open spec fn interaction_mode(kind: Seq<char>) -> Seq<char> {
    if kind == "resonant_archetype"@ {
        "resonant_exchange"@
    } else if kind == "proximal_overlap"@ {
        "gradient_blend"@
    } else if kind == "continuity_bridge"@ {
        "continuity_transfer"@
    } else {
        "boundary_probe"@
    }
}

pub open spec fn min100(v: int) -> int {
    if v > 100 {
        100
    } else {
        v
    }
}

/// The resonance of an edge: bridge, 20 for a shared archetype and the
/// radius closeness (100 less the gap, floored at 0), averaged, at most 100.
pub open spec fn resonance(e: Phase90ShapeAdjacencyEdge) -> int {
    min100(
        (e.continuity_bridge_percent + (if e.shared_archetype {
            20int
        } else {
            0int
        }) + (100 - (if e.radius_gap < 100 {
            e.radius_gap as int
        } else {
            100int
        }))) / 3,
    )
}

/// The pressure of an interaction: resonance, flow and embedding averaged,
/// at most 100.
pub open spec fn pressure(res: int, flow: int, embedding: int) -> int {
    min100((res + flow + embedding) / 3)
}

/// `ev` is the interaction read from edge `e` of a manifold with the
/// given embedding weight.
pub open spec fn is_event_of(ev: Phase90ShapeInteractionEvent, e: Phase90ShapeAdjacencyEdge, embedding: int) -> bool {
    let res = resonance(e);
    &&& ev.from_shape_index == e.from_shape_index
    &&& ev.to_shape_index == e.to_shape_index
    &&& ev.adjacency_kind@ == e.adjacency_kind@
    &&& ev.interaction_mode@ == interaction_mode(e.adjacency_kind@)
    &&& ev.resonance_score_percent == res
    &&& ev.continuity_flow_percent == e.continuity_bridge_percent
    &&& ev.operator_pressure_percent == pressure(res, e.continuity_bridge_percent as int, embedding)
}

pub open spec fn modes(evs: Seq<Phase90ShapeInteractionEvent>) -> Seq<Seq<char>> {
    evs.map_values(|ev: Phase90ShapeInteractionEvent| ev.interaction_mode@)
}

/// How many of `ms` equal `m`.
pub open spec fn count_of(ms: Seq<Seq<char>>, m: Seq<char>) -> nat
    decreases ms.len(),
{
    if ms.len() == 0 {
        0
    } else {
        count_of(ms.drop_last(), m) + if ms.last() == m {
            1nat
        } else {
            0nat
        }
    }
}

/// `d` is the mode of the last interaction whose mode is the most frequent.
pub open spec fn is_dominant_mode(ms: Seq<Seq<char>>, d: Seq<char>) -> bool {
    exists|k: int|
        0 <= k < ms.len() && ms[k] == d && (forall|j: int|
            0 <= j < ms.len() ==> count_of(ms, #[trigger] ms[j]) <= count_of(ms, d)) && (forall|
            j: int,
        |
            k < j < ms.len() ==> count_of(ms, #[trigger] ms[j]) < count_of(ms, d))
}

pub open spec fn sum_resonance(evs: Seq<Phase90ShapeInteractionEvent>, n: int) -> int
    decreases n,
{
    if n <= 0 {
        0
    } else {
        sum_resonance(evs, n - 1) + evs[n - 1].resonance_score_percent
    }
}

pub open spec fn sum_pressure(evs: Seq<Phase90ShapeInteractionEvent>, n: int) -> int
    decreases n,
{
    if n <= 0 {
        0
    } else {
        sum_pressure(evs, n - 1) + evs[n - 1].operator_pressure_percent
    }
}

pub open spec fn event_line(ev: Phase90ShapeInteractionEvent) -> Seq<char> {
    dec_nat(ev.from_shape_index as nat) + ">"@ + dec_nat(ev.to_shape_index as nat) + ":"@
        + ev.interaction_mode@ + ":"@ + dec_nat(ev.resonance_score_percent as nat) + ":"@
        + dec_nat(ev.operator_pressure_percent as nat)
}

pub open spec fn event_lines(evs: Seq<Phase90ShapeInteractionEvent>) -> Seq<Seq<char>> {
    evs.map_values(|ev: Phase90ShapeInteractionEvent| event_line(ev))
}

/// `d` are the interaction dynamics of manifold `m`.
pub open spec fn is_dynamics_of(d: Phase90MultiShapeInteractionDynamics, m: Phase90CognitiveManifold) -> bool {
    let evs = d.interaction_events@;
    let n = evs.len() as int;
    let res = sum_resonance(evs, n) / n;
    let press = sum_pressure(evs, n) / n;
    let sig = "manifold="@ + m.manifold_signature@ + "|count="@ + dec_nat(n as nat) + "|dominant="@
        + d.dominant_interaction_mode@ + "|resonance="@ + dec_nat(res as nat) + "|pressure="@
        + dec_nat(press as nat) + "|events="@ + join(event_lines(evs), "|"@);
    &&& n == m.adjacency_edges@.len()
    &&& forall|k: int|
        0 <= k < n ==> is_event_of(
            #[trigger] evs[k],
            m.adjacency_edges@[k],
            m.manifold_embedding_weight_percent as int,
        )
    &&& d.manifold_signature@ == m.manifold_signature@
    &&& d.interaction_count == n
    &&& is_dominant_mode(modes(evs), d.dominant_interaction_mode@)
    &&& d.aggregate_resonance_percent == res
    &&& d.aggregate_operator_pressure_percent == press
    &&& d.dynamics_signature@ == sig
    &&& d.dynamics_profile_hash@ == hex_nat(std_hash_of_str_u8_u8(sig, res as u8, press as u8) as nat)
    &&& d.dynamics_well_formed == (res > 0 && press > 0)
}

/// The telemetry line published for interaction dynamics.
pub open spec fn dynamics_line(d: Phase90MultiShapeInteractionDynamics) -> Seq<char> {
    "manifold_signature="@ + d.manifold_signature@ + ":interaction_count="@ + dec_nat(
        d.interaction_count as nat,
    ) + ":dominant_mode="@ + d.dominant_interaction_mode@ + ":aggregate_resonance="@ + dec_nat(
        d.aggregate_resonance_percent as nat,
    ) + ":aggregate_pressure="@ + dec_nat(d.aggregate_operator_pressure_percent as nat)
        + ":dynamics_signature="@ + d.dynamics_signature@ + ":profile_hash="@
        + d.dynamics_profile_hash@ + ":well_formed="@ + bool_text(d.dynamics_well_formed)
}

proof fn lemma_sums_bounded(evs: Seq<Phase90ShapeInteractionEvent>, n: int)
    requires
        0 <= n <= evs.len(),
        forall|k: int| 0 <= k < evs.len() ==> (#[trigger] evs[k]).resonance_score_percent <= 100
            && evs[k].operator_pressure_percent <= 100,
    ensures
        0 <= sum_resonance(evs, n) <= 100 * n,
        0 <= sum_pressure(evs, n) <= 100 * n,
    decreases n,
{
    if n > 0 {
        lemma_sums_bounded(evs, n - 1);
    }
}

proof fn lemma_count_prefix(ms: Seq<Seq<char>>, m: Seq<char>, i: int)
    requires
        0 <= i < ms.len(),
    ensures
        count_of(ms.subrange(0, i + 1), m) == count_of(ms.subrange(0, i), m) + if ms[i] == m {
            1nat
        } else {
            0nat
        },
{
    assert(ms.subrange(0, i + 1).drop_last() =~= ms.subrange(0, i));
}

// ── kernel ───────────────────────────────────────────────────────────────────

fn mode_name(kind: &String) -> (s: String)
    ensures
        s@ == interaction_mode(kind@),
{
    let resonant = text("resonant_archetype");
    let proximal = text("proximal_overlap");
    let bridge = text("continuity_bridge");
    if same_text(kind, &resonant) {
        text("resonant_exchange")
    } else if same_text(kind, &proximal) {
        text("gradient_blend")
    } else if same_text(kind, &bridge) {
        text("continuity_transfer")
    } else {
        text("boundary_probe")
    }
}

fn count_mode(evs: &Vec<Phase90ShapeInteractionEvent>, m: &String) -> (c: usize)
    ensures
        c == count_of(modes(evs@), m@),
{
    let mut c: usize = 0;
    let mut i: usize = 0;
    while i < evs.len()
        invariant
            i <= evs@.len(),
            c == count_of(modes(evs@).subrange(0, i as int), m@),
            c <= i,
        decreases evs@.len() - i,
    {
        proof {
            lemma_count_prefix(modes(evs@), m@, i as int);
        }
        if same_text(&evs[i].interaction_mode, m) {
            c = c + 1;
        }
        i = i + 1;
    }
    assert(modes(evs@).subrange(0, evs@.len() as int) =~= modes(evs@));
    c
}

fn event_line_text(ev: &Phase90ShapeInteractionEvent) -> (line: String)
    ensures
        line@ == event_line(*ev),
{
    let mut line = text("");
    push_usize(&mut line, ev.from_shape_index);
    push_str(&mut line, ">");
    push_usize(&mut line, ev.to_shape_index);
    push_str(&mut line, ":");
    push_str(&mut line, ev.interaction_mode.as_str());
    push_str(&mut line, ":");
    push_u64(&mut line, ev.resonance_score_percent as u64);
    push_str(&mut line, ":");
    push_u64(&mut line, ev.operator_pressure_percent as u64);
    proof {
        reveal_strlit("");
    }
    assert(line@ =~= event_line(*ev));
    line
}

/// Computes the interaction dynamics of a governed manifold with edges.
pub fn phase90_compute_multishape_interaction_dynamics(manifold: &Phase90CognitiveManifold) -> (r:
    Result<Phase90MultiShapeInteractionDynamics, String>)
    requires
        manifold.adjacency_edges@.len() * 100 <= u32::MAX,
    ensures
        match r {
            Ok(d) => manifold.manifold_well_formed && manifold.adjacency_edges@.len() > 0
                && is_dynamics_of(d, *manifold),
            Err(e) => if !manifold.manifold_well_formed {
                e@ == "cannot compute interaction dynamics from malformed manifold"@
            } else {
                manifold.adjacency_edges@.len() == 0
                    && e@ == "cannot compute interaction dynamics without manifold edges"@
            },
        },
{
    if !manifold.manifold_well_formed {
        return Err(text("cannot compute interaction dynamics from malformed manifold"));
    }
    if manifold.adjacency_edges.len() == 0 {
        return Err(text("cannot compute interaction dynamics without manifold edges"));
    }
    let embedding = manifold.manifold_embedding_weight_percent;
    let n = manifold.adjacency_edges.len();
    let mut events: Vec<Phase90ShapeInteractionEvent> = Vec::new();
    let mut k: usize = 0;
    while k < n
        invariant
            n == manifold.adjacency_edges@.len(),
            embedding == manifold.manifold_embedding_weight_percent,
            k <= n,
            events@.len() == k,
            forall|m: int|
                0 <= m < k ==> is_event_of(
                    #[trigger] events@[m],
                    manifold.adjacency_edges@[m],
                    embedding as int,
                ),
        decreases n - k,
    {
        let edge = &manifold.adjacency_edges[k];
        let interaction_mode = mode_name(&edge.adjacency_kind);
        let shared_bonus: u16 = if edge.shared_archetype {
            20
        } else {
            0
        };
        let gap: u16 = if edge.radius_gap < 100 {
            edge.radius_gap
        } else {
            100
        };
        let res_raw: u16 = (edge.continuity_bridge_percent as u16 + shared_bonus + (100 - gap)) / 3;
        let resonance_score_percent: u8 = if res_raw > 100 {
            100
        } else {
            res_raw as u8
        };
        let continuity_flow_percent = edge.continuity_bridge_percent;
        let press_raw: u16 = (resonance_score_percent as u16 + continuity_flow_percent as u16
            + embedding as u16) / 3;
        let operator_pressure_percent: u8 = if press_raw > 100 {
            100
        } else {
            press_raw as u8
        };
        events.push(
            Phase90ShapeInteractionEvent {
                from_shape_index: edge.from_shape_index,
                to_shape_index: edge.to_shape_index,
                adjacency_kind: edge.adjacency_kind.clone(),
                interaction_mode,
                resonance_score_percent,
                continuity_flow_percent,
                operator_pressure_percent,
            },
        );
        k = k + 1;
    }
    proof {
        lemma_sums_bounded(events@, n as int);
    }
    let mut res_total: u32 = 0;
    let mut press_total: u32 = 0;
    let mut best: usize = 0;
    let mut best_count: usize = 0;
    let mut i: usize = 0;
    while i < n
        invariant
            n == events@.len(),
            n > 0,
            n * 100 <= u32::MAX,
            forall|m: int| 0 <= m < n ==> (#[trigger] events@[m]).resonance_score_percent <= 100
                && events@[m].operator_pressure_percent <= 100,
            i <= n,
            res_total == sum_resonance(events@, i as int),
            press_total == sum_pressure(events@, i as int),
            i > 0 ==> best < i && best_count == count_of(modes(events@), modes(events@)[best as int]),
            i == 0 ==> best_count == 0,
            forall|j: int|
                0 <= j < i ==> count_of(modes(events@), #[trigger] modes(events@)[j]) <= best_count,
            i > 0 ==> forall|j: int|
                best < j < i ==> count_of(modes(events@), #[trigger] modes(events@)[j]) < best_count,
        decreases n - i,
    {
        proof {
            lemma_sums_bounded(events@, i + 1);
        }
        res_total = res_total + events[i].resonance_score_percent as u32;
        press_total = press_total + events[i].operator_pressure_percent as u32;
        let c = count_mode(&events, &events[i].interaction_mode);
        assert(modes(events@)[i as int] == events@[i as int].interaction_mode@);
        if c >= best_count {
            best = i;
            best_count = c;
        }
        i = i + 1;
    }
    let aggregate_resonance_percent = (res_total / (n as u32)) as u8;
    let aggregate_operator_pressure_percent = (press_total / (n as u32)) as u8;
    proof {
        assert(sum_resonance(events@, n as int) / (n as int) <= 100) by (nonlinear_arith)
            requires
                n >= 1,
                0 <= sum_resonance(events@, n as int) <= 100 * n,
        ;
        assert(sum_pressure(events@, n as int) / (n as int) <= 100) by (nonlinear_arith)
            requires
                n >= 1,
                0 <= sum_pressure(events@, n as int) <= 100 * n,
        ;
    }
    let dominant_interaction_mode = events[best].interaction_mode.clone();
    assert(modes(events@)[best as int] == dominant_interaction_mode@);
    assert(is_dominant_mode(modes(events@), dominant_interaction_mode@));
    let mut lines: Vec<String> = Vec::new();
    let mut e: usize = 0;
    while e < n
        invariant
            n == events@.len(),
            e <= n,
            lines@.len() == e,
            forall|m: int| 0 <= m < e ==> #[trigger] lines@[m]@ == event_line(events@[m]),
        decreases n - e,
    {
        lines.push(event_line_text(&events[e]));
        e = e + 1;
    }
    assert(views(lines@) =~= event_lines(events@));
    let joined = join_strings(&lines, "|");
    let mut signature = text("manifold=");
    push_str(&mut signature, manifold.manifold_signature.as_str());
    push_str(&mut signature, "|count=");
    push_usize(&mut signature, n);
    push_str(&mut signature, "|dominant=");
    push_str(&mut signature, dominant_interaction_mode.as_str());
    push_str(&mut signature, "|resonance=");
    push_u64(&mut signature, aggregate_resonance_percent as u64);
    push_str(&mut signature, "|pressure=");
    push_u64(&mut signature, aggregate_operator_pressure_percent as u64);
    push_str(&mut signature, "|events=");
    push_str(&mut signature, joined.as_str());
    let h = default_hash_str_u8_u8(
        signature.as_str(),
        aggregate_resonance_percent,
        aggregate_operator_pressure_percent,
    );
    let dynamics_profile_hash = hex_text(h);
    let dynamics_well_formed = n > 0 && aggregate_operator_pressure_percent > 0
        && aggregate_resonance_percent > 0;
    Ok(
        Phase90MultiShapeInteractionDynamics {
            manifold_signature: manifold.manifold_signature.clone(),
            interaction_count: n,
            dominant_interaction_mode,
            aggregate_resonance_percent,
            aggregate_operator_pressure_percent,
            interaction_events: events,
            dynamics_signature: signature,
            dynamics_profile_hash,
            dynamics_well_formed,
        },
    )
}

/// The telemetry line for interaction dynamics.
pub fn phase90_interaction_dynamics_telemetry_line(d: &Phase90MultiShapeInteractionDynamics) -> (line:
    String)
    ensures
        line@ == dynamics_line(*d),
{
    let mut line = text("manifold_signature=");
    push_str(&mut line, d.manifold_signature.as_str());
    push_str(&mut line, ":interaction_count=");
    push_usize(&mut line, d.interaction_count);
    push_str(&mut line, ":dominant_mode=");
    push_str(&mut line, d.dominant_interaction_mode.as_str());
    push_str(&mut line, ":aggregate_resonance=");
    push_u64(&mut line, d.aggregate_resonance_percent as u64);
    push_str(&mut line, ":aggregate_pressure=");
    push_u64(&mut line, d.aggregate_operator_pressure_percent as u64);
    push_str(&mut line, ":dynamics_signature=");
    push_str(&mut line, d.dynamics_signature.as_str());
    push_str(&mut line, ":profile_hash=");
    push_str(&mut line, d.dynamics_profile_hash.as_str());
    push_str(&mut line, ":well_formed=");
    push_bool(&mut line, d.dynamics_well_formed);
    line
}

} // verus!
