//! Cognitive manifolds: shapes joined by adjacency edges into a topology,
//! with an embedding weight, a radius and an archetype.
use vstd::prelude::*;
use crate::cognition::phase90_emergent_cognitive_shapes::Phase90EmergentCognitiveShape;
use crate::text::{bool_text, dec_nat, default_hash_str_u8_u16_usize, hex_nat, hex_text,
    is_blank, join, join_strings, push_bool, push_str, push_u64, push_usize, same_text,
    std_hash_of_str_u8_u16_usize, text, views};

verus! {

#[derive(Debug, Clone, PartialEq, Eq)]
pub struct Phase90ShapeAdjacencyEdge {
    pub from_shape_index: usize,
    pub to_shape_index: usize,
    pub adjacency_kind: String,
    pub continuity_bridge_percent: u8,
    pub radius_gap: u16,
    pub shared_archetype: bool,
}

#[derive(Debug, Clone, PartialEq, Eq)]
pub struct Phase90CognitiveManifold {
    pub shape_span_signature: String,
    pub shape_count: usize,
    pub topology_edge_count: usize,
    pub manifold_archetype: String,
    pub manifold_embedding_weight_percent: u8,
    pub manifold_radius: u16,
    pub adjacency_edges: Vec<Phase90ShapeAdjacencyEdge>,
    pub topology_graph_signature: String,
    pub manifold_signature: String,
    pub manifold_profile_hash: String,
    pub manifold_well_formed: bool,
}

pub type Shapes = Seq<Phase90EmergentCognitiveShape>;

/// An edge as plain values: from, to, kind, bridge, gap, shared archetype.
pub type EdgeV = (int, int, Seq<char>, int, int, bool);

// ── model ────────────────────────────────────────────────────────────────────

pub open spec fn edge_view(e: Phase90ShapeAdjacencyEdge) -> EdgeV {
    (
        e.from_shape_index as int,
        e.to_shape_index as int,
        e.adjacency_kind@,
        e.continuity_bridge_percent as int,
        e.radius_gap as int,
        e.shared_archetype,
    )
}

pub open spec fn edge_views(es: Seq<Phase90ShapeAdjacencyEdge>) -> Seq<EdgeV> {
    es.map_values(|e: Phase90ShapeAdjacencyEdge| edge_view(e))
}

/// The edge between shapes `i` and `j`, if they are adjacent: a shared
/// archetype with a bridge of 60, a radius gap of at most 64 with a bridge
/// of 40, or a bridge of 75 on its own.
pub open spec fn edge_between(shapes: Shapes, i: int, j: int) -> Option<EdgeV> {
    let left = shapes[i];
    let right = shapes[j];
    let bridge = if left.continuity_envelope_percent <= right.continuity_envelope_percent {
        left.continuity_envelope_percent as int
    } else {
        right.continuity_envelope_percent as int
    };
    let gap = if left.emergent_radius >= right.emergent_radius {
        left.emergent_radius - right.emergent_radius
    } else {
        right.emergent_radius - left.emergent_radius
    };
    let shared = left.shape_archetype@ == right.shape_archetype@;
    if shared && bridge >= 60 {
        Some((i, j, "resonant_archetype"@, bridge, gap, shared))
    } else if gap <= 64 && bridge >= 40 {
        Some((i, j, "proximal_overlap"@, bridge, gap, shared))
    } else if bridge >= 75 {
        Some((i, j, "continuity_bridge"@, bridge, gap, shared))
    } else {
        None
    }
}

/// The edges from shape `i` to the shapes `i + 1 .. j`, in order.
pub open spec fn edges_row(shapes: Shapes, i: int, j: int) -> Seq<EdgeV>
    decreases j - i,
{
    if j <= i + 1 {
        Seq::empty()
    } else {
        edges_row(shapes, i, j - 1) + match edge_between(shapes, i, j - 1) {
            Some(e) => seq![e],
            None => Seq::empty(),
        }
    }
}

/// The edges from the first `i` shapes, row by row.
pub open spec fn edges_rows(shapes: Shapes, i: int) -> Seq<EdgeV>
    decreases i,
{
    if i <= 0 {
        Seq::empty()
    } else {
        edges_rows(shapes, i - 1) + edges_row(shapes, i - 1, shapes.len() as int)
    }
}

pub open spec fn edge_line(e: EdgeV) -> Seq<char> {
    dec_nat(e.0 as nat) + ">"@ + dec_nat(e.1 as nat) + ":"@ + e.2 + ":"@ + dec_nat(e.3 as nat)
        + ":"@ + dec_nat(e.4 as nat) + ":"@ + bool_text(e.5)
}

pub open spec fn edge_lines(es: Seq<EdgeV>) -> Seq<Seq<char>> {
    es.map_values(|e: EdgeV| edge_line(e))
}

pub open spec fn min_envelope(shapes: Shapes, n: int) -> int
    decreases n,
{
    if n <= 1 {
        shapes[0].continuity_envelope_percent as int
    } else if (shapes[n - 1].continuity_envelope_percent as int) < min_envelope(shapes, n - 1) {
        shapes[n - 1].continuity_envelope_percent as int
    } else {
        min_envelope(shapes, n - 1)
    }
}

pub open spec fn max_shape_radius(shapes: Shapes, n: int) -> int
    decreases n,
{
    if n <= 1 {
        shapes[0].emergent_radius as int
    } else if (shapes[n - 1].emergent_radius as int) > max_shape_radius(shapes, n - 1) {
        shapes[n - 1].emergent_radius as int
    } else {
        max_shape_radius(shapes, n - 1)
    }
}

pub open spec fn sum_density(shapes: Shapes, n: int) -> int
    decreases n,
{
    if n <= 0 {
        0
    } else {
        sum_density(shapes, n - 1) + shapes[n - 1].structural_density_percent
    }
}

pub open spec fn clamp(v: int, lo: int, hi: int) -> int {
    if v < lo {
        lo
    } else if v > hi {
        hi
    } else {
        v
    }
}

pub open spec fn manifold_archetype(count: int, density: int) -> Seq<char> {
    if count == 1 {
        "local_patch"@
    } else if 2 <= count <= 3 {
        if density <= 49 {
            "corridor"@
        } else {
            "braid"@
        }
    } else if 4 <= count <= 6 {
        if density <= 59 {
            "mesh"@
        } else {
            "lattice_graph"@
        }
    } else if density <= 59 {
        "atlas"@
    } else {
        "topology_graph"@
    }
}

pub open spec fn shape_spans(shapes: Shapes) -> Seq<Seq<char>> {
    shapes.map_values(|s: Phase90EmergentCognitiveShape| s.episode_span_signature@)
}

/// `m` is the manifold formed from the non-empty shape list `shapes`.
pub open spec fn is_manifold_of(m: Phase90CognitiveManifold, shapes: Shapes) -> bool {
    let n = shapes.len() as int;
    let span = join(shape_spans(shapes), "||"@);
    let embedding = min_envelope(shapes, n);
    let radius = clamp(max_shape_radius(shapes, n) + n * 25, 64, 2048);
    let avg = sum_density(shapes, n) / n;
    let arch = manifold_archetype(n, avg);
    let edges = edges_rows(shapes, n);
    let graph = join(edge_lines(edges), "|"@);
    let sig = "shapes="@ + span + "|edges="@ + dec_nat(edges.len()) + "|archetype="@ + arch
        + "|embedding="@ + dec_nat(embedding as nat) + "|radius="@ + dec_nat(radius as nat)
        + "|graph="@ + graph;
    &&& m.shape_span_signature@ == span
    &&& m.shape_count == n
    &&& m.topology_edge_count == edges.len()
    &&& m.manifold_archetype@ == arch
    &&& m.manifold_embedding_weight_percent == embedding
    &&& m.manifold_radius == radius
    &&& edge_views(m.adjacency_edges@) == edges
    &&& m.topology_graph_signature@ == graph
    &&& m.manifold_signature@ == sig
    &&& m.manifold_profile_hash@ == hex_nat(
        std_hash_of_str_u8_u16_usize(sig, embedding as u8, radius as u16, edges.len() as usize)
            as nat,
    )
    &&& m.manifold_well_formed == ((forall|k: int|
        0 <= k < n ==> (#[trigger] shapes[k]).shape_well_formed) && embedding > 0 && (edges.len()
        > 0 || n == 1))
}

/// The shape totals can be taken in `u32` as manifold formation takes them.
pub open spec fn manifold_fits(shapes: Shapes) -> bool {
    let n = shapes.len() as int;
    &&& n * 25 + 65535 <= u32::MAX
    &&& sum_density(shapes, n) <= u32::MAX
}

proof fn lemma_density_monotone(shapes: Shapes, a: int, b: int)
    requires
        0 <= a <= b <= shapes.len(),
    ensures
        sum_density(shapes, a) <= sum_density(shapes, b),
    decreases b - a,
{
    if a < b {
        lemma_density_monotone(shapes, a, b - 1);
    }
}

/// The telemetry line published for a manifold.
pub open spec fn manifold_line(m: Phase90CognitiveManifold) -> Seq<char> {
    "shape_span="@ + m.shape_span_signature@ + ":shape_count="@ + dec_nat(m.shape_count as nat)
        + ":edge_count="@ + dec_nat(m.topology_edge_count as nat) + ":archetype="@
        + m.manifold_archetype@ + ":embedding="@ + dec_nat(
        m.manifold_embedding_weight_percent as nat,
    ) + ":radius="@ + dec_nat(m.manifold_radius as nat) + ":graph_signature="@
        + m.topology_graph_signature@ + ":manifold_signature="@ + m.manifold_signature@
        + ":profile_hash="@ + m.manifold_profile_hash@ + ":well_formed="@ + bool_text(
        m.manifold_well_formed,
    )
}

proof fn lemma_min_max_bounds(shapes: Shapes, n: int)
    requires
        1 <= n <= shapes.len(),
    ensures
        0 <= min_envelope(shapes, n) <= 255,
        0 <= max_shape_radius(shapes, n) <= 65535,
    decreases n,
{
    if n > 1 {
        lemma_min_max_bounds(shapes, n - 1);
    }
}

proof fn lemma_density_bound(shapes: Shapes, n: int)
    requires
        0 <= n <= shapes.len(),
    ensures
        0 <= sum_density(shapes, n) <= 255 * n,
    decreases n,
{
    if n > 0 {
        lemma_density_bound(shapes, n - 1);
    }
}

// ── kernel ───────────────────────────────────────────────────────────────────

fn phase90_manifold_archetype(shape_count: usize, density_average: u8) -> (s: String)
    ensures
        s@ == manifold_archetype(shape_count as int, density_average as int),
{
    if shape_count == 1 {
        text("local_patch")
    } else if 2 <= shape_count && shape_count <= 3 {
        if density_average <= 49 {
            text("corridor")
        } else {
            text("braid")
        }
    } else if 4 <= shape_count && shape_count <= 6 {
        if density_average <= 59 {
            text("mesh")
        } else {
            text("lattice_graph")
        }
    } else if density_average <= 59 {
        text("atlas")
    } else {
        text("topology_graph")
    }
}

fn phase90_edge_between(shapes: &[Phase90EmergentCognitiveShape], i: usize, j: usize) -> (r: Option<
    Phase90ShapeAdjacencyEdge,
>)
    requires
        i < j < shapes@.len(),
    ensures
        match r {
            Some(e) => edge_between(shapes@, i as int, j as int) == Some(edge_view(e)),
            None => edge_between(shapes@, i as int, j as int) is None,
        },
{
    let left = &shapes[i];
    let right = &shapes[j];
    let bridge = if left.continuity_envelope_percent <= right.continuity_envelope_percent {
        left.continuity_envelope_percent
    } else {
        right.continuity_envelope_percent
    };
    let gap = if left.emergent_radius >= right.emergent_radius {
        left.emergent_radius - right.emergent_radius
    } else {
        right.emergent_radius - left.emergent_radius
    };
    let shared = same_text(&left.shape_archetype, &right.shape_archetype);
    let kind = if shared && bridge >= 60 {
        "resonant_archetype"
    } else if gap <= 64 && bridge >= 40 {
        "proximal_overlap"
    } else if bridge >= 75 {
        "continuity_bridge"
    } else {
        return None;
    };
    Some(
        Phase90ShapeAdjacencyEdge {
            from_shape_index: i,
            to_shape_index: j,
            adjacency_kind: text(kind),
            continuity_bridge_percent: bridge,
            radius_gap: gap,
            shared_archetype: shared,
        },
    )
}

fn phase90_build_shape_adjacency_edges(shapes: &[Phase90EmergentCognitiveShape]) -> (edges: Vec<
    Phase90ShapeAdjacencyEdge,
>)
    ensures
        edge_views(edges@) == edges_rows(shapes@, shapes@.len() as int),
{
    let n = shapes.len();
    let mut edges: Vec<Phase90ShapeAdjacencyEdge> = Vec::new();
    let mut i: usize = 0;
    while i < n
        invariant
            n == shapes@.len(),
            i <= n,
            edge_views(edges@) == edges_rows(shapes@, i as int),
        decreases n - i,
    {
        let ghost rows = edges_rows(shapes@, i as int);
        let mut j: usize = i + 1;
        while j < n
            invariant
                n == shapes@.len(),
                i < n,
                i + 1 <= j <= n,
                edge_views(edges@) == rows + edges_row(shapes@, i as int, j as int),
            decreases n - j,
        {
            let ghost before = edge_views(edges@);
            match phase90_edge_between(shapes, i, j) {
                Some(e) => {
                    edges.push(e);
                    assert(edge_views(edges@) =~= before + seq![edge_view(e)]);
                },
                None => {},
            }
            assert(edges_row(shapes@, i as int, j + 1) == edges_row(shapes@, i as int, j as int)
                + match edge_between(shapes@, i as int, j as int) {
                Some(e) => seq![e],
                None => Seq::<EdgeV>::empty(),
            });
            assert(edge_views(edges@) =~= rows + edges_row(shapes@, i as int, j + 1));
            j = j + 1;
        }
        assert(edges_rows(shapes@, i + 1) == rows + edges_row(shapes@, i as int, n as int));
        i = i + 1;
    }
    edges
}

fn edge_graph_line(e: &Phase90ShapeAdjacencyEdge) -> (line: String)
    ensures
        line@ == edge_line(edge_view(*e)),
{
    let mut line = text("");
    push_usize(&mut line, e.from_shape_index);
    push_str(&mut line, ">");
    push_usize(&mut line, e.to_shape_index);
    push_str(&mut line, ":");
    push_str(&mut line, e.adjacency_kind.as_str());
    push_str(&mut line, ":");
    push_u64(&mut line, e.continuity_bridge_percent as u64);
    push_str(&mut line, ":");
    push_u64(&mut line, e.radius_gap as u64);
    push_str(&mut line, ":");
    crate::text::push_bool(&mut line, e.shared_archetype);
    proof {
        reveal_strlit("");
    }
    assert(line@ =~= edge_line(edge_view(*e)));
    line
}

/// Forms a manifold from an ordered, non-empty list of shapes.
pub fn phase90_form_cognitive_manifold(shapes: &[Phase90EmergentCognitiveShape]) -> (r: Result<
    Phase90CognitiveManifold,
    String,
>)
    requires
        manifold_fits(shapes@),
    ensures
        match r {
            Ok(m) => shapes@.len() > 0 && is_manifold_of(m, shapes@),
            Err(e) => shapes@.len() == 0 && e@ == "cannot form cognitive manifold from empty shape set"@,
        },
{
    if shapes.len() == 0 {
        return Err(text("cannot form cognitive manifold from empty shape set"));
    }
    let ghost ss = shapes@;
    let n = shapes.len();
    let mut all_shapes_well_formed = true;
    let mut envelope: u8 = shapes[0].continuity_envelope_percent;
    let mut max_r: u16 = shapes[0].emergent_radius;
    let mut density_total: u32 = 0;
    let mut spans: Vec<String> = Vec::new();
    let mut k: usize = 0;
    while k < n
        invariant
            n == ss.len(),
            n > 0,
            ss == shapes@,
            manifold_fits(ss),
            k <= n,
            all_shapes_well_formed == (forall|m: int| 0 <= m < k ==> (#[trigger] ss[m]).shape_well_formed),
            density_total == sum_density(ss, k as int),
            k > 0 ==> envelope == min_envelope(ss, k as int),
            k > 0 ==> max_r == max_shape_radius(ss, k as int),
            k == 0 ==> envelope == ss[0].continuity_envelope_percent && max_r == ss[0].emergent_radius,
            spans@.len() == k,
            forall|m: int| 0 <= m < k ==> #[trigger] spans@[m]@ == ss[m].episode_span_signature@,
        decreases n - k,
    {
        let s = &shapes[k];
        proof {
            lemma_density_monotone(ss, k + 1, n as int);
        }
        all_shapes_well_formed = all_shapes_well_formed && s.shape_well_formed;
        density_total = density_total + s.structural_density_percent as u32;
        if k > 0 && s.continuity_envelope_percent < envelope {
            envelope = s.continuity_envelope_percent;
        }
        if k > 0 && s.emergent_radius > max_r {
            max_r = s.emergent_radius;
        }
        spans.push(s.episode_span_signature.clone());
        k = k + 1;
    }
    proof {
        lemma_min_max_bounds(ss, n as int);
        lemma_density_bound(ss, n as int);
        assert(sum_density(ss, n as int) / (n as int) <= 255) by (nonlinear_arith)
            requires
                n >= 1,
                0 <= sum_density(ss, n as int) <= 255 * n,
        ;
    }
    assert(views(spans@) =~= shape_spans(ss));
    let shape_span_signature = join_strings(&spans, "||");
    let radius_sum = max_r as u32 + (n as u32) * 25;
    let manifold_radius: u16 = if radius_sum < 64 {
        64
    } else if radius_sum > 2048 {
        2048
    } else {
        radius_sum as u16
    };
    let density_average = (density_total / (n as u32)) as u8;
    let archetype = phase90_manifold_archetype(n, density_average);
    let adjacency_edges = phase90_build_shape_adjacency_edges(shapes);
    let topology_edge_count = adjacency_edges.len();
    let mut lines: Vec<String> = Vec::new();
    let mut e: usize = 0;
    while e < adjacency_edges.len()
        invariant
            e <= adjacency_edges@.len(),
            lines@.len() == e,
            forall|m: int|
                0 <= m < e ==> #[trigger] lines@[m]@ == edge_line(edge_view(adjacency_edges@[m])),
        decreases adjacency_edges@.len() - e,
    {
        lines.push(edge_graph_line(&adjacency_edges[e]));
        e = e + 1;
    }
    assert(views(lines@) =~= edge_lines(edge_views(adjacency_edges@)));
    let graph = join_strings(&lines, "|");
    let mut signature = text("shapes=");
    push_str(&mut signature, shape_span_signature.as_str());
    push_str(&mut signature, "|edges=");
    push_usize(&mut signature, topology_edge_count);
    push_str(&mut signature, "|archetype=");
    push_str(&mut signature, archetype.as_str());
    push_str(&mut signature, "|embedding=");
    push_u64(&mut signature, envelope as u64);
    push_str(&mut signature, "|radius=");
    push_u64(&mut signature, manifold_radius as u64);
    push_str(&mut signature, "|graph=");
    push_str(&mut signature, graph.as_str());
    let h = default_hash_str_u8_u16_usize(
        signature.as_str(),
        envelope,
        manifold_radius,
        topology_edge_count,
    );
    let manifold_profile_hash = hex_text(h);
    proof {
        reveal_strlit("local_patch");
        reveal_strlit("corridor");
        reveal_strlit("braid");
        reveal_strlit("mesh");
        reveal_strlit("lattice_graph");
        reveal_strlit("atlas");
        reveal_strlit("topology_graph");
    }
    let manifold_well_formed = all_shapes_well_formed && envelope > 0 && manifold_radius >= 64 && (
    topology_edge_count > 0 || n == 1) && !is_blank(&archetype);
    Ok(
        Phase90CognitiveManifold {
            shape_span_signature,
            shape_count: n,
            topology_edge_count,
            manifold_archetype: archetype,
            manifold_embedding_weight_percent: envelope,
            manifold_radius,
            adjacency_edges,
            topology_graph_signature: graph,
            manifold_signature: signature,
            manifold_profile_hash,
            manifold_well_formed,
        },
    )
}

/// The telemetry line for a manifold.
pub fn phase90_manifold_telemetry_line(m: &Phase90CognitiveManifold) -> (line: String)
    ensures
        line@ == manifold_line(*m),
{
    let mut line = text("shape_span=");
    push_str(&mut line, m.shape_span_signature.as_str());
    push_str(&mut line, ":shape_count=");
    push_usize(&mut line, m.shape_count);
    push_str(&mut line, ":edge_count=");
    push_usize(&mut line, m.topology_edge_count);
    push_str(&mut line, ":archetype=");
    push_str(&mut line, m.manifold_archetype.as_str());
    push_str(&mut line, ":embedding=");
    push_u64(&mut line, m.manifold_embedding_weight_percent as u64);
    push_str(&mut line, ":radius=");
    push_u64(&mut line, m.manifold_radius as u64);
    push_str(&mut line, ":graph_signature=");
    push_str(&mut line, m.topology_graph_signature.as_str());
    push_str(&mut line, ":manifold_signature=");
    push_str(&mut line, m.manifold_signature.as_str());
    push_str(&mut line, ":profile_hash=");
    push_str(&mut line, m.manifold_profile_hash.as_str());
    push_str(&mut line, ":well_formed=");
    push_bool(&mut line, m.manifold_well_formed);
    line
}

} // verus!
