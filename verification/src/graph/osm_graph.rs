//! The road-network wrapper and its spatial partitioner.
//!
//! An `OSMGraph` couples the input record (vertices with coordinates)
//! with the directed adjacency graph built from it.  The partitioner
//! slices the bounding rectangle of the vertex set into `n` vertical
//! bands; band `i` keeps every directed edge both of whose endpoints fall
//! in the band, and band `0` additionally absorbs every node of the
//! parent graph that no band captured, so that the bands together cover
//! the whole node set.

use vstd::prelude::*;
use crate::error::Error;
use crate::graph::gmap::{
    gm_add_edge, gm_add_node, gm_all_edges_vec, gm_new, gm_node_count, gm_nodes_vec, gm_edges,
    gm_nodes, Osmid, RoadGraph,
};
use crate::graph::rect::{
    lemma_seq_max_bounds, lemma_seq_min_bounds, seq_max, seq_min, xs_of, Rect,
};
use crate::models::graph_input::{Edge, Graph, Vertex};

verus! {

broadcast use vstd::std_specs::hash::group_hash_axioms;

/// Largest edge length the graph accepts, in fixed-point metres.
pub const MAX_EDGE_LEN: u64 = 0xFFFF_FFFF;

/// Largest node count the graph accepts.
pub const MAX_NODE_COUNT: usize = 0x4000_0000;

/// Largest coordinate magnitude the graph accepts, in fixed-point units.
pub const COORD_LIMIT: i64 = 0x1_0000_0000;

/// Largest number of partitions a graph may be split into; partitions are
/// owned by 32-bit ranks.
pub const MAX_PARTITIONS: usize = 0x7FFF_FFFF;

/// The directed edge map described by an input edge list: later entries
/// for the same (from, to) pair replace earlier ones.
pub open spec fn input_edge_map(es: Seq<Edge>) -> Map<(Osmid, Osmid), u64>
    decreases es.len(),
{
    if es.len() == 0 {
        Map::empty()
    } else {
        input_edge_map(es.drop_last()).insert((es.last().from, es.last().to), es.last().length)
    }
}

/// The node set described by an input record: every listed vertex id and
/// every endpoint of a listed edge.
pub open spec fn input_node_set(vs: Seq<Vertex>, es: Seq<Edge>) -> Set<Osmid> {
    Set::new(
        |id: Osmid|
            (exists|i: int| 0 <= i < vs.len() && vs[i].osm_id == id) || (exists|j: int|
                0 <= j < es.len() && (es[j].from == id || es[j].to == id)),
    )
}

/// Every weight of the input edge map is the length of some input edge,
/// and every key comes from some input edge.
proof fn lemma_input_edge_map_values(es: Seq<Edge>)
    ensures
        forall|k: (Osmid, Osmid)| #[trigger]
            input_edge_map(es).contains_key(k) ==> exists|j: int|
                0 <= j < es.len() && es[j].from == k.0 && es[j].to == k.1 && input_edge_map(es)[k]
                    == es[j].length,
    decreases es.len(),
{
    if es.len() > 0 {
        lemma_input_edge_map_values(es.drop_last());
        let prev = input_edge_map(es.drop_last());
        let last = es.last();
        assert forall|k: (Osmid, Osmid)| #[trigger]
            input_edge_map(es).contains_key(k) implies exists|j: int|
            0 <= j < es.len() && es[j].from == k.0 && es[j].to == k.1 && input_edge_map(es)[k]
                == es[j].length by {
            if k == (last.from, last.to) {
                assert(es[es.len() - 1].from == k.0 && es[es.len() - 1].to == k.1
                    && input_edge_map(es)[k] == es[es.len() - 1].length);
            } else {
                let j = choose|j: int|
                    0 <= j < es.drop_last().len() && es.drop_last()[j].from == k.0
                        && es.drop_last()[j].to == k.1 && prev[k] == es.drop_last()[j].length;
                assert(es[j] == es.drop_last()[j]);
            }
        }
    }
}

/// Whether every coordinate of a vertex list is within the accepted range.
pub open spec fn vertices_bounded(vs: Seq<Vertex>) -> bool {
    forall|i: int|
        0 <= i < vs.len() ==> -COORD_LIMIT <= #[trigger] vs[i].x <= COORD_LIMIT && -COORD_LIMIT
            <= vs[i].y <= COORD_LIMIT
}

/// Whether every edge length of an input edge list is within the accepted
/// range.
pub open spec fn edges_bounded(es: Seq<Edge>) -> bool {
    forall|j: int| 0 <= j < es.len() ==> #[trigger] es[j].length <= MAX_EDGE_LEN
}

/// Well-formedness of a bare road graph: a finite, bounded node set, and
/// edges whose weights are bounded and whose endpoints are nodes.
pub open spec fn graph_wf(g: RoadGraph) -> bool {
    &&& gm_nodes(g).finite()
    &&& gm_nodes(g).len() <= MAX_NODE_COUNT
    &&& forall|k: (Osmid, Osmid)| #[trigger]
        gm_edges(g).contains_key(k) ==> gm_edges(g)[k] <= MAX_EDGE_LEN && gm_nodes(g).contains(
            k.0,
        ) && gm_nodes(g).contains(k.1)
}

/// The width of one vertical band when the x extent of a vertex list is
/// cut into `n` equal strips.
pub open spec fn band_delta(vs: Seq<Vertex>, n: int) -> int
    recommends
        vs.len() > 0,
        n >= 1,
{
    (seq_max(xs_of(vs)) - seq_min(xs_of(vs))) / n
}

/// The left boundary of band `i`.
pub open spec fn band_lo(vs: Seq<Vertex>, n: int, i: int) -> int {
    seq_min(xs_of(vs)) + band_delta(vs, n) * i
}

/// The right boundary of band `i`.
pub open spec fn band_hi(vs: Seq<Vertex>, n: int, i: int) -> int {
    band_lo(vs, n, i) + band_delta(vs, n)
}

/// The ids of the vertices whose x coordinate falls in band `i`.
#[verifier::opaque]
pub open spec fn band_ids(vs: Seq<Vertex>, n: int, i: int) -> Set<Osmid> {
    Set::new(
        |id: Osmid|
            exists|j: int|
                0 <= j < vs.len() && vs[j].osm_id == id && band_lo(vs, n, i) <= #[trigger] vs[j].x
                    <= band_hi(vs, n, i),
    )
}

/// The edges of band `i`: those whose endpoints both fall in the band.
#[verifier::opaque]
pub open spec fn child_edges(vs: Seq<Vertex>, em: Map<(Osmid, Osmid), u64>, n: int, i: int) -> Map<
    (Osmid, Osmid),
    u64,
> {
    Map::new(
        |k: (Osmid, Osmid)|
            em.contains_key(k) && band_ids(vs, n, i).contains(k.0) && band_ids(vs, n, i).contains(
                k.1,
            ),
        |k: (Osmid, Osmid)| em[k],
    )
}

/// The endpoints of an edge map.
pub open spec fn edge_endpoints(em: Map<(Osmid, Osmid), u64>) -> Set<Osmid> {
    Set::new(
        |id: Osmid|
            exists|k: (Osmid, Osmid)| #[trigger] em.contains_key(k) && (k.0 == id || k.1 == id),
    )
}

/// Adding an edge to a map adds exactly its two endpoints to the
/// endpoint set.
proof fn lemma_endpoints_insert(em: Map<(Osmid, Osmid), u64>, a: Osmid, b: Osmid, w: u64)
    ensures
        edge_endpoints(em.insert((a, b), w)) =~= edge_endpoints(em).insert(a).insert(b),
{
    let em2 = em.insert((a, b), w);
    assert forall|id: Osmid|
        edge_endpoints(em2).contains(id) <==> edge_endpoints(em).insert(a).insert(b).contains(
            id,
        ) by {
        if edge_endpoints(em2).contains(id) {
            let k = choose|k: (Osmid, Osmid)| #[trigger]
                em2.contains_key(k) && (k.0 == id || k.1 == id);
            if k != (a, b) {
                assert(em.contains_key(k) && (k.0 == id || k.1 == id));
            }
        }
        if edge_endpoints(em).insert(a).insert(b).contains(id) {
            if edge_endpoints(em).contains(id) {
                let k = choose|k: (Osmid, Osmid)| #[trigger]
                    em.contains_key(k) && (k.0 == id || k.1 == id);
                if k != (a, b) {
                    assert(em2.contains_key(k) && (k.0 == id || k.1 == id));
                }
            } else {
                assert(em2.contains_key((a, b)) && ((a, b).0 == id || (a, b).1 == id));
            }
        }
    }
}

/// The nodes of the child graph of band `i`: the endpoints of its edges.
pub open spec fn child_nodes(vs: Seq<Vertex>, em: Map<(Osmid, Osmid), u64>, n: int, i: int) -> Set<
    Osmid,
> {
    edge_endpoints(child_edges(vs, em, n, i))
}

/// The nodes captured by the first `c` child graphs.
pub open spec fn children_union(
    vs: Seq<Vertex>,
    em: Map<(Osmid, Osmid), u64>,
    n: int,
    c: int,
) -> Set<Osmid>
    decreases c,
{
    if c <= 0 {
        Set::empty()
    } else {
        children_union(vs, em, n, c - 1).union(child_nodes(vs, em, n, c - 1))
    }
}

/// The nodes of the parent graph that no child graph captured.
pub open spec fn orphan_set(
    vs: Seq<Vertex>,
    em: Map<(Osmid, Osmid), u64>,
    nodes: Set<Osmid>,
    n: int,
) -> Set<Osmid> {
    nodes.difference(children_union(vs, em, n, n))
}

/// The node set of partition `i`: the child nodes of band `i`, plus, for
/// partition zero, every orphan of the parent graph.
pub open spec fn part_nodes(
    vs: Seq<Vertex>,
    em: Map<(Osmid, Osmid), u64>,
    nodes: Set<Osmid>,
    n: int,
    i: int,
) -> Set<Osmid> {
    if i == 0 {
        child_nodes(vs, em, n, 0).union(orphan_set(vs, em, nodes, n))
    } else {
        child_nodes(vs, em, n, i)
    }
}

/// A road network: the input record it came from, and the directed graph
/// built over it.
#[derive(Debug)]
pub struct OSMGraph {
    /// The input record: the vertex list drives the spatial partitioner.
    pub osm: Graph,
    /// The adjacency graph: nodes are OSM ids, weights are lengths.
    pub graph: RoadGraph,
}

impl OSMGraph {
    /// The vertex list the partitioner works over.
    pub open spec fn spec_vertices(self) -> Seq<Vertex> {
        self.osm.vertices@
    }

    /// Well-formedness: the graph is bounded and closed, and the vertex
    /// coordinates are within range.
    pub open spec fn wf(self) -> bool {
        &&& graph_wf(self.graph)
        &&& vertices_bounded(self.osm.vertices@)
    }

    /// Builds the road graph of an input record: every listed vertex
    /// becomes a node, and every listed edge becomes a directed edge,
    /// later duplicates replacing earlier ones.  Inputs whose lengths,
    /// coordinates or node count exceed the machine bounds are rejected.
    pub fn new(osm_graph: Graph) -> (r: Result<OSMGraph, Error>)
        ensures
            match r {
                Ok(g) => {
                    &&& g.wf()
                    &&& g.osm == osm_graph
                    &&& gm_nodes(g.graph) == input_node_set(osm_graph.vertices@, osm_graph.edges@)
                    &&& gm_edges(g.graph) == input_edge_map(osm_graph.edges@)
                },
                Err(e) => {
                    &&& e == Error::InvariantViolation
                    &&& !(vertices_bounded(osm_graph.vertices@) && edges_bounded(osm_graph.edges@)
                        && input_node_set(osm_graph.vertices@, osm_graph.edges@).len()
                        <= MAX_NODE_COUNT)
                },
            },
    {
        let ghost vs = osm_graph.vertices@;
        let ghost es = osm_graph.edges@;

        let nv = osm_graph.vertices.len();
        let mut i: usize = 0;
        while i < nv
            invariant
                0 <= i <= nv,
                nv == vs.len(),
                osm_graph.vertices@ == vs,
                forall|t: int|
                    0 <= t < i ==> -COORD_LIMIT <= #[trigger] vs[t].x <= COORD_LIMIT
                        && -COORD_LIMIT <= vs[t].y <= COORD_LIMIT,
            decreases nv - i,
        {
            let v = &osm_graph.vertices[i];
            if v.x < -COORD_LIMIT || v.x > COORD_LIMIT || v.y < -COORD_LIMIT || v.y > COORD_LIMIT {
                return Err(Error::InvariantViolation);
            }
            i = i + 1;
        }

        let ne = osm_graph.edges.len();
        let mut j: usize = 0;
        while j < ne
            invariant
                0 <= j <= ne,
                ne == es.len(),
                osm_graph.edges@ == es,
                forall|t: int| 0 <= t < j ==> #[trigger] es[t].length <= MAX_EDGE_LEN,
            decreases ne - j,
        {
            if osm_graph.edges[j].length > MAX_EDGE_LEN {
                return Err(Error::InvariantViolation);
            }
            j = j + 1;
        }

        let mut g = gm_new();

        let mut i: usize = 0;
        while i < nv
            invariant
                0 <= i <= nv,
                nv == vs.len(),
                osm_graph.vertices@ == vs,
                gm_edges(g) == Map::<(Osmid, Osmid), u64>::empty(),
                gm_nodes(g).finite(),
                gm_nodes(g) =~= Set::new(
                    |id: Osmid| exists|t: int| 0 <= t < i && vs[t].osm_id == id,
                ),
            decreases nv - i,
        {
            let ghost before = gm_nodes(g);
            gm_add_node(&mut g, osm_graph.vertices[i].osm_id);
            proof {
                assert(gm_nodes(g) =~= Set::new(
                    |id: Osmid| exists|t: int| 0 <= t < i + 1 && vs[t].osm_id == id,
                )) by {
                    assert forall|id: Osmid|
                        before.insert(vs[i as int].osm_id).contains(id) <==> exists|t: int|
                            0 <= t < i + 1 && vs[t].osm_id == id by {
                        if before.insert(vs[i as int].osm_id).contains(id) {
                            if id == vs[i as int].osm_id {
                                assert(0 <= i < i + 1 && vs[i as int].osm_id == id);
                            }
                        }
                    }
                }
            }
            i = i + 1;
        }

        proof {
            assert(gm_nodes(g) =~= Set::new(
                |id: Osmid| exists|t: int| 0 <= t < vs.len() && vs[t].osm_id == id,
            ));
        }

        let mut j: usize = 0;
        while j < ne
            invariant
                0 <= j <= ne,
                ne == es.len(),
                osm_graph.edges@ == es,
                forall|t: int| 0 <= t < es.len() ==> #[trigger] es[t].length <= MAX_EDGE_LEN,
                gm_edges(g) == input_edge_map(es.take(j as int)),
                gm_nodes(g).finite(),
                gm_nodes(g) =~= Set::new(
                    |id: Osmid|
                        (exists|t: int| 0 <= t < vs.len() && vs[t].osm_id == id) || (exists|t: int|
                            0 <= t < j && (es[t].from == id || es[t].to == id)),
                ),
            decreases ne - j,
        {
            let ghost before = gm_nodes(g);
            let e = &osm_graph.edges[j];
            gm_add_edge(&mut g, e.from, e.to, e.length);
            proof {
                assert(es.take(j + 1).drop_last() =~= es.take(j as int));
                assert(es.take(j + 1).last() == es[j as int]);
                assert(gm_edges(g) == input_edge_map(es.take(j + 1)));
                assert(gm_nodes(g) =~= Set::new(
                    |id: Osmid|
                        (exists|t: int| 0 <= t < vs.len() && vs[t].osm_id == id) || (exists|t: int|
                            0 <= t < j + 1 && (es[t].from == id || es[t].to == id)),
                )) by {
                    assert forall|id: Osmid|
                        before.insert(es[j as int].from).insert(es[j as int].to).contains(id)
                            <==> (exists|t: int| 0 <= t < vs.len() && vs[t].osm_id == id) || (
                        exists|t: int| 0 <= t < j + 1 && (es[t].from == id || es[t].to == id)) by {
                        if before.insert(es[j as int].from).insert(es[j as int].to).contains(id) {
                            if id == es[j as int].from || id == es[j as int].to {
                                assert(0 <= j < j + 1 && (es[j as int].from == id || es[j as int].to
                                    == id));
                            }
                        }
                    }
                }
            }
            j = j + 1;
        }

        proof {
            assert(es.take(ne as int) =~= es);
            assert(gm_nodes(g) =~= input_node_set(vs, es));
        }

        let count = gm_node_count(&g);
        if count > MAX_NODE_COUNT {
            return Err(Error::InvariantViolation);
        }

        proof {
            lemma_input_edge_map_values(es);
        }

        Ok(OSMGraph { osm: osm_graph, graph: g })
    }
}


/// Copies a vertex list.
fn copy_vertices(src: &Vec<Vertex>) -> (r: Vec<Vertex>)
    ensures
        r@ == src@,
{
    let n = src.len();
    let mut out: Vec<Vertex> = Vec::new();
    let mut t: usize = 0;
    while t < n
        invariant
            0 <= t <= n,
            n == src@.len(),
            out@ == src@.take(t as int),
        decreases n - t,
    {
        out.push(src[t]);
        proof {
            assert(src@.take(t + 1) =~= src@.take(t as int).push(src@[t as int]));
        }
        t = t + 1;
    }
    proof {
        assert(src@.take(n as int) =~= src@);
    }
    out
}

/// Collects the ids of the vertices whose x coordinate lies in the
/// closed interval from `lo` to `hi`.
#[verifier::spinoff_prover]
fn band_id_set(vertices: &Vec<Vertex>, lo: i64, hi: i64) -> (band: std::collections::HashSet<
    Osmid,
>)
    ensures
        band@ == Set::new(
            |id: Osmid|
                exists|j: int|
                    0 <= j < vertices@.len() && vertices@[j].osm_id == id && lo as int
                        <= #[trigger] vertices@[j].x <= hi as int,
        ),
{
    let ghost vs = vertices@;
    let nv = vertices.len();
    let mut band: std::collections::HashSet<Osmid> = std::collections::HashSet::new();
    let mut t: usize = 0;
    while t < nv
        invariant
            0 <= t <= nv,
            nv == vs.len(),
            vertices@ == vs,
            band@ =~= Set::new(
                |id: Osmid|
                    exists|j: int|
                        0 <= j < t && vs[j].osm_id == id && lo as int <= #[trigger] vs[j].x
                            <= hi as int,
            ),
        decreases nv - t,
    {
        let ghost before = band@;
        let v = &vertices[t];
        if lo <= v.x && v.x <= hi {
            band.insert(v.osm_id);
        }
        proof {
            assert(band@ =~= Set::new(
                |id: Osmid|
                    exists|j: int|
                        0 <= j < t + 1 && vs[j].osm_id == id && lo as int <= #[trigger] vs[j].x
                            <= hi as int,
            )) by {
                assert forall|id: Osmid|
                    band@.contains(id) <==> exists|j: int|
                        0 <= j < t + 1 && vs[j].osm_id == id && lo as int <= #[trigger] vs[j].x
                            <= hi as int by {
                    if band@.contains(id) {
                        if !before.contains(id) {
                            assert(vs[t as int].osm_id == id && lo as int <= vs[t as int].x
                                <= hi as int);
                        }
                    } else {
                        if exists|j: int|
                            0 <= j < t + 1 && vs[j].osm_id == id && lo as int <= #[trigger] vs[j].x
                                <= hi as int {
                            let j = choose|j: int|
                                0 <= j < t + 1 && vs[j].osm_id == id && lo as int
                                    <= #[trigger] vs[j].x <= hi as int;
                            assert(j == t);
                            assert(band@.contains(id));
                        }
                    }
                }
            }
        }
        t = t + 1;
    }
    proof {
        assert(vs == vertices@);
    }
    band
}

/// Builds the subgraph holding every edge of `parent` both of whose
/// endpoints lie in `band`, and exactly the nodes those edges touch.
#[verifier::spinoff_prover]
#[verifier::rlimit(30)]
fn filter_band_edges(parent: &RoadGraph, band: &std::collections::HashSet<Osmid>) -> (child:
    RoadGraph)
    ensures
        gm_edges(child) == Map::new(
            |k: (Osmid, Osmid)|
                gm_edges(*parent).contains_key(k) && band@.contains(k.0) && band@.contains(k.1),
            |k: (Osmid, Osmid)| gm_edges(*parent)[k],
        ),
        gm_nodes(child) == edge_endpoints(gm_edges(child)),
        gm_nodes(child).finite(),
{
    let ghost em = gm_edges(*parent);
    let mut child = gm_new();
    let edge_lst = gm_all_edges_vec(parent);
    let ghost el = edge_lst@;
    let ne = edge_lst.len();
    let mut t: usize = 0;
    proof {
        assert(gm_nodes(child) =~= edge_endpoints(gm_edges(child)));
    }
    while t < ne
        invariant
            0 <= t <= ne,
            ne == el.len(),
            edge_lst@ == el,
            em == gm_edges(*parent),
            forall|q: int|
                0 <= q < el.len() ==> em.contains_pair((#[trigger] el[q].0, el[q].1), el[q].2),
            forall|q: int, p: int| 0 <= q < p < el.len() ==> (el[q].0, el[q].1) != (el[p].0, el[p].1),
            forall|a: Osmid, b: Osmid|
                em.contains_key((a, b)) ==> exists|q: int|
                    0 <= q < el.len() && el[q].0 == a && el[q].1 == b,
            forall|k: (Osmid, Osmid)| #[trigger]
                gm_edges(child).contains_key(k) ==> em.contains_key(k) && band@.contains(k.0)
                    && band@.contains(k.1) && gm_edges(child)[k] == em[k],
            forall|q: int|
                0 <= q < t && band@.contains(#[trigger] el[q].0) && band@.contains(el[q].1)
                    ==> gm_edges(child).contains_key((el[q].0, el[q].1)),
            gm_nodes(child) == edge_endpoints(gm_edges(child)),
            gm_nodes(child).finite(),
        decreases ne - t,
    {
        let ghost nodes_before = gm_nodes(child);
        let ghost edges_before = gm_edges(child);
        let e = edge_lst[t];
        let keep_a = band.contains(&e.0);
        let keep_b = band.contains(&e.1);
        if keep_a && keep_b {
            gm_add_edge(&mut child, e.0, e.1, e.2);
            proof {
                assert(em.contains_pair((el[t as int].0, el[t as int].1), el[t as int].2));
                lemma_endpoints_insert(edges_before, el[t as int].0, el[t as int].1, el[t as int].2);
                assert(gm_nodes(child) =~= edge_endpoints(gm_edges(child)));
            }
        }
        t = t + 1;
    }
    proof {
        assert(gm_edges(child) =~= Map::new(
            |k: (Osmid, Osmid)| em.contains_key(k) && band@.contains(k.0) && band@.contains(k.1),
            |k: (Osmid, Osmid)| em[k],
        )) by {
            assert forall|k: (Osmid, Osmid)|
                em.contains_key(k) && band@.contains(k.0) && band@.contains(
                    k.1,
                ) implies gm_edges(child).contains_key(k) by {
                let q = choose|q: int| 0 <= q < el.len() && el[q].0 == k.0 && el[q].1 == k.1;
                assert(band@.contains(el[q].0) && band@.contains(el[q].1));
            }
        }
    }
    child
}

/// Builds the child graph of band `i`: the rectangle over all vertices is
/// cut into `n` vertical strips, and the child keeps every directed edge
/// both of whose endpoints fall in strip `i`.
#[verifier::spinoff_prover]
#[verifier::rlimit(30)]
fn determine_rects(target_graph: &OSMGraph, n: usize, i: usize) -> (r: Result<OSMGraph, Error>)
    requires
        target_graph.wf(),
        1 <= n <= MAX_PARTITIONS,
        i < n,
    ensures
        match r {
            Ok(c) => {
                &&& target_graph.spec_vertices().len() > 0
                &&& gm_edges(c.graph) == child_edges(
                    target_graph.spec_vertices(),
                    gm_edges(target_graph.graph),
                    n as int,
                    i as int,
                )
                &&& gm_nodes(c.graph) == child_nodes(
                    target_graph.spec_vertices(),
                    gm_edges(target_graph.graph),
                    n as int,
                    i as int,
                )
                &&& gm_nodes(c.graph) <= gm_nodes(target_graph.graph)
                &&& graph_wf(c.graph)
            },
            Err(e) => e == Error::EmptyInput && target_graph.spec_vertices().len() == 0,
        },
{
    let ghost vs = target_graph.osm.vertices@;
    let ghost em = gm_edges(target_graph.graph);
    let ghost nn = n as int;
    let ghost ii = i as int;

    let vtx_lst = copy_vertices(&target_graph.osm.vertices);
    let rect = match Rect::new(vtx_lst) {
        Ok(rr) => rr,
        Err(e) => {
            return Err(e);
        },
    };

    let bl = rect.bottom_left.x;
    let tr = rect.top_right.x;

    proof {
        lemma_seq_min_bounds(xs_of(vs));
        lemma_seq_max_bounds(xs_of(vs));
        assert(xs_of(vs).len() == vs.len());
        let j = choose|j: int| 0 <= j < xs_of(vs).len() && seq_min(xs_of(vs)) == xs_of(vs)[j];
        assert(xs_of(vs)[j] == vs[j].x as int);
        let k = choose|k: int| 0 <= k < xs_of(vs).len() && seq_max(xs_of(vs)) == xs_of(vs)[k];
        assert(xs_of(vs)[k] == vs[k].x as int);
        assert(xs_of(vs)[0] == vs[0].x as int);
        assert(-COORD_LIMIT <= bl <= COORD_LIMIT);
        assert(-COORD_LIMIT <= tr <= COORD_LIMIT);
        assert(bl <= tr);
    }

    // Cut the x extent into n strips and take the boundaries of strip i.
    let width: u64 = (tr - bl) as u64;
    let x_delta: u64 = width / (n as u64);
    proof {
        vstd::arithmetic::div_mod::lemma_fundamental_div_mod(width as int, n as int);
        assert(x_delta * (i as u64) <= width) by (nonlinear_arith)
            requires
                width as int == (n as int) * (x_delta as int) + (width as int) % (n as int),
                0 <= (width as int) % (n as int),
                0 <= x_delta,
                0 <= i < n,
        ;
        assert(x_delta as int == band_delta(vs, n as int)) by {
            assert(width as int == seq_max(xs_of(vs)) - seq_min(xs_of(vs)));
        }
    }
    let x_offset: u64 = x_delta * (i as u64);
    let lo: i64 = bl + (x_offset as i64);
    let hi: i64 = lo + (x_delta as i64);

    proof {
        assert(lo as int == band_lo(vs, nn, ii));
        assert(hi as int == band_hi(vs, nn, ii));
    }

    let band = band_id_set(&target_graph.osm.vertices, lo, hi);
    proof {
        reveal(band_ids);
        assert(band@ =~= band_ids(vs, nn, ii));
    }

    let child = filter_band_edges(&target_graph.graph, &band);
    proof {
        reveal(band_ids);
        reveal(child_edges);
        assert(gm_edges(child) =~= child_edges(vs, em, nn, ii));
        assert(gm_nodes(child) =~= child_nodes(vs, em, nn, ii));
        // The child's nodes are endpoints of parent edges, so the child
        // stays within the parent's node set and inherits its bounds.
        assert(gm_nodes(child) <= gm_nodes(target_graph.graph)) by {
            assert forall|id: Osmid| gm_nodes(child).contains(id) implies gm_nodes(
                target_graph.graph,
            ).contains(id) by {
                let k = choose|k: (Osmid, Osmid)| #[trigger]
                    child_edges(vs, em, nn, ii).contains_key(k) && (k.0 == id || k.1 == id);
                assert(em.contains_key(k));
            }
        }
        vstd::set_lib::lemma_len_subset(gm_nodes(child), gm_nodes(target_graph.graph));
        assert(graph_wf(child));
    }

    let osm_g = OSMGraph { osm: target_graph.osm.clone(), graph: child };
    Ok(osm_g)
}

/// What `determine_rects` guarantees of child `q`: its content matches
/// the band, it stays inside the parent, and it is well formed.
#[verifier::opaque]
pub open spec fn is_child_partition(c: OSMGraph, parent: OSMGraph, n: int, q: int) -> bool {
    &&& gm_edges(c.graph) == child_edges(parent.spec_vertices(), gm_edges(parent.graph), n, q)
    &&& gm_nodes(c.graph) == child_nodes(parent.spec_vertices(), gm_edges(parent.graph), n, q)
    &&& gm_nodes(c.graph) <= gm_nodes(parent.graph)
    &&& graph_wf(c.graph)
}

/// The nodes of any child graph lie inside any set that holds the
/// endpoints of every parent edge.
proof fn lemma_child_nodes_in_parent(
    vs: Seq<Vertex>,
    em: Map<(Osmid, Osmid), u64>,
    pn: Set<Osmid>,
    n: int,
    i: int,
)
    requires
        forall|k: (Osmid, Osmid)| #[trigger]
            em.contains_key(k) ==> pn.contains(k.0) && pn.contains(k.1),
    ensures
        child_nodes(vs, em, n, i) <= pn,
{
    reveal(child_edges);
    assert forall|id: Osmid| child_nodes(vs, em, n, i).contains(id) implies pn.contains(id) by {
        let k = choose|k: (Osmid, Osmid)| #[trigger]
            child_edges(vs, em, n, i).contains_key(k) && (k.0 == id || k.1 == id);
        assert(em.contains_key(k));
    }
}

/// Builds the child graph of every band.
#[verifier::spinoff_prover]
fn build_children(target: &OSMGraph, n: usize) -> (r: Result<Vec<OSMGraph>, Error>)
    requires
        target.wf(),
        1 <= n <= MAX_PARTITIONS,
    ensures
        match r {
            Ok(cs) => {
                &&& target.spec_vertices().len() > 0
                &&& cs@.len() == n
                &&& forall|q: int|
                    0 <= q < n ==> is_child_partition(#[trigger] cs@[q], *target, n as int, q)
            },
            Err(e) => e == Error::EmptyInput && target.spec_vertices().len() == 0,
        },
{
    let ghost nn = n as int;
    let mut graphs: Vec<OSMGraph> = Vec::new();
    let mut j: usize = 0;
    while j < n
        invariant
            0 <= j <= n,
            1 <= n <= MAX_PARTITIONS,
            nn == n as int,
            target.wf(),
            graphs@.len() == j,
            j > 0 ==> target.spec_vertices().len() > 0,
            forall|q: int| 0 <= q < j ==> is_child_partition(#[trigger] graphs@[q], *target, nn, q),
        decreases n - j,
    {
        let c = match determine_rects(target, n, j) {
            Ok(c) => c,
            Err(e) => {
                return Err(e);
            },
        };
        proof {
            reveal(is_child_partition);
            assert(is_child_partition(c, *target, nn, j as int));
        }
        graphs.push(c);
        j = j + 1;
    }
    Ok(graphs)
}

/// Collects into one set every node that some child graph holds.
#[verifier::spinoff_prover]
#[verifier::rlimit(30)]
fn covered_node_set(
    graphs: &Vec<OSMGraph>,
    n: usize,
    Ghost(parent): Ghost<OSMGraph>,
) -> (covered: std::collections::HashSet<Osmid>)
    requires
        graphs@.len() == n,
        forall|q: int|
            0 <= q < n ==> is_child_partition(#[trigger] graphs@[q], parent, n as int, q),
    ensures
        covered@ == children_union(
            parent.spec_vertices(),
            gm_edges(parent.graph),
            n as int,
            n as int,
        ),
{
    let ghost vs = parent.spec_vertices();
    let ghost em = gm_edges(parent.graph);
    let ghost nn = n as int;
    proof {
        reveal(is_child_partition);
        assert forall|q: int|
            0 <= q < n implies gm_nodes(#[trigger] graphs@[q].graph) == child_nodes(
            vs,
            em,
            nn,
            q,
        ) by {
            assert(is_child_partition(graphs@[q], parent, nn, q));
        }
    }
    let mut covered: std::collections::HashSet<Osmid> = std::collections::HashSet::new();
    let mut j: usize = 0;
    while j < n
        invariant
            0 <= j <= n,
            graphs@.len() == n,
            forall|q: int|
                0 <= q < n ==> gm_nodes(#[trigger] graphs@[q].graph) == child_nodes(vs, em, nn, q),
            covered@ =~= children_union(vs, em, nn, j as int),
        decreases n - j,
    {
        let ids = gm_nodes_vec(&graphs[j].graph);
        let m = ids.len();
        let mut t: usize = 0;
        while t < m
            invariant
                0 <= t <= m,
                m == ids@.len(),
                ids@.to_set() == child_nodes(vs, em, nn, j as int),
                covered@ =~= children_union(vs, em, nn, j as int).union(
                    Set::new(|id: Osmid| exists|q: int| 0 <= q < t && ids@[q] == id),
                ),
            decreases m - t,
        {
            let ghost before = covered@;
            covered.insert(ids[t]);
            proof {
                assert(covered@ =~= children_union(vs, em, nn, j as int).union(
                    Set::new(|id: Osmid| exists|q: int| 0 <= q < t + 1 && ids@[q] == id),
                )) by {
                    assert forall|id: Osmid|
                        before.insert(ids@[t as int]).contains(id) <==> (children_union(
                            vs,
                            em,
                            nn,
                            j as int,
                        ).contains(id) || exists|q: int| 0 <= q < t + 1 && ids@[q] == id) by {
                        if before.insert(ids@[t as int]).contains(id) {
                            if !before.contains(id) {
                                assert(ids@[t as int] == id);
                            }
                        } else {
                            if exists|q: int| 0 <= q < t + 1 && ids@[q] == id {
                                let q = choose|q: int| 0 <= q < t + 1 && ids@[q] == id;
                                assert(q == t);
                                assert(before.insert(ids@[t as int]).contains(id));
                            }
                        }
                    }
                }
            }
            t = t + 1;
        }
        proof {
            assert(Set::new(|id: Osmid| exists|q: int| 0 <= q < m && ids@[q] == id)
                =~= ids@.to_set()) by {
                assert forall|id: Osmid|
                    (exists|q: int| 0 <= q < m && ids@[q] == id) <==> ids@.contains(id) by {}
            }
            assert(covered@ =~= children_union(vs, em, nn, j + 1));
        }
        j = j + 1;
    }
    covered
}

/// Adds to the graph every listed id that the covered set misses; edges
/// are untouched.
#[verifier::spinoff_prover]
fn absorb_missing_nodes(
    g: &mut RoadGraph,
    ids: &Vec<Osmid>,
    covered: &std::collections::HashSet<Osmid>,
)
    ensures
        gm_edges(*final(g)) == gm_edges(*old(g)),
        gm_nodes(*final(g)) == gm_nodes(*old(g)).union(ids@.to_set().difference(covered@)),
{
    let m = ids.len();
    let mut t: usize = 0;
    while t < m
        invariant
            0 <= t <= m,
            m == ids@.len(),
            gm_edges(*g) == gm_edges(*old(g)),
            gm_nodes(*g) =~= gm_nodes(*old(g)).union(
                Set::new(
                    |id: Osmid|
                        (exists|q: int| 0 <= q < t && ids@[q] == id) && !covered@.contains(id),
                ),
            ),
        decreases m - t,
    {
        let ghost before = gm_nodes(*g);
        let id = ids[t];
        if !covered.contains(&id) {
            gm_add_node(g, id);
        }
        proof {
            assert(gm_nodes(*g) =~= gm_nodes(*old(g)).union(
                Set::new(
                    |id: Osmid|
                        (exists|q: int| 0 <= q < t + 1 && ids@[q] == id) && !covered@.contains(id),
                ),
            )) by {
                assert forall|x: Osmid|
                    gm_nodes(*g).contains(x) <==> (gm_nodes(*old(g)).contains(x) || ((exists|q: int|
                        0 <= q < t + 1 && ids@[q] == x) && !covered@.contains(x))) by {
                    if gm_nodes(*g).contains(x) {
                        if !before.contains(x) {
                            assert(ids@[t as int] == x && !covered@.contains(x));
                        }
                    } else {
                        assert(!before.contains(x));
                        if (exists|q: int| 0 <= q < t + 1 && ids@[q] == x) && !covered@.contains(
                            x,
                        ) {
                            let q = choose|q: int| 0 <= q < t + 1 && ids@[q] == x;
                            assert(q == t);
                            assert(gm_nodes(*g).contains(x));
                        }
                    }
                }
            }
        }
        t = t + 1;
    }
    proof {
        assert(gm_nodes(*g) =~= gm_nodes(*old(g)).union(ids@.to_set().difference(covered@))) by {
            assert forall|x: Osmid|
                ((exists|q: int| 0 <= q < m && ids@[q] == x) <==> ids@.contains(x)) by {}
        }
    }
}


/// Assembling partition zero: absorbing the uncovered parent nodes into
/// the child of band zero yields exactly the partition-zero node set,
/// which stays inside the parent's node set and keeps the graph well
/// formed.
proof fn lemma_part0_assembly(
    vs: Seq<Vertex>,
    em: Map<(Osmid, Osmid), u64>,
    pn: Set<Osmid>,
    nn: int,
    after: Set<Osmid>,
)
    requires
        after == child_nodes(vs, em, nn, 0).union(
            pn.difference(children_union(vs, em, nn, nn)),
        ),
        forall|k: (Osmid, Osmid)| #[trigger]
            em.contains_key(k) ==> pn.contains(k.0) && pn.contains(k.1),
        pn.finite(),
        pn.len() <= MAX_NODE_COUNT,
    ensures
        after == part_nodes(vs, em, pn, nn, 0),
        after <= pn,
        after.finite(),
        after.len() <= MAX_NODE_COUNT,
        forall|k: (Osmid, Osmid)| #[trigger]
            child_edges(vs, em, nn, 0).contains_key(k) ==> after.contains(k.0) && after.contains(
                k.1,
            ),
{
    lemma_child_nodes_in_parent(vs, em, pn, nn, 0);
    assert(after =~= part_nodes(vs, em, pn, nn, 0));
    assert(after <= pn);
    vstd::set_lib::lemma_len_subset(after, pn);
    assert forall|k: (Osmid, Osmid)| #[trigger]
        child_edges(vs, em, nn, 0).contains_key(k) implies after.contains(k.0) && after.contains(
        k.1,
    ) by {
        assert(child_nodes(vs, em, nn, 0).contains(k.0));
        assert(child_nodes(vs, em, nn, 0).contains(k.1));
    }
}

/// Graph partitioning: cutting a graph into `n` disjoint child graphs
/// and handing out the `i`th.
pub trait GPartition {
    /// Whether the graph is fit to be partitioned.
    spec fn partition_wf(&self) -> bool;

    /// Returns partition `i` of `n`.
    fn partition(&self, n: usize, i: usize) -> (r: Result<OSMGraph, Error>)
        requires
            self.partition_wf(),
            1 <= n <= MAX_PARTITIONS,
            i < n,
    ;
}

impl GPartition for OSMGraph {
    open spec fn partition_wf(&self) -> bool {
        self.wf()
    }

    /// Cuts the graph into `n` vertical bands and returns band `i`'s
    /// child graph; band `0` also receives every node no band captured,
    /// so the bands together cover the node set.  Fails exactly when the
    /// vertex list is empty.
    #[verifier::spinoff_prover]
    #[verifier::rlimit(30)]
    fn partition(&self, n: usize, i: usize) -> (r: Result<OSMGraph, Error>)
        ensures
            match r {
                Ok(p) => {
                    &&& self.spec_vertices().len() > 0
                    &&& gm_nodes(p.graph) == part_nodes(
                        self.spec_vertices(),
                        gm_edges(self.graph),
                        gm_nodes(self.graph),
                        n as int,
                        i as int,
                    )
                    &&& gm_edges(p.graph) == child_edges(
                        self.spec_vertices(),
                        gm_edges(self.graph),
                        n as int,
                        i as int,
                    )
                    &&& gm_nodes(p.graph) <= gm_nodes(self.graph)
                    &&& graph_wf(p.graph)
                },
                Err(e) => e == Error::EmptyInput && self.spec_vertices().len() == 0,
            },
    {
        let ghost vs = self.spec_vertices();
        let ghost em = gm_edges(self.graph);
        let ghost pn = gm_nodes(self.graph);
        let ghost nn = n as int;

        let mut graphs = match build_children(self, n) {
            Ok(cs) => cs,
            Err(e) => {
                return Err(e);
            },
        };

        let covered = covered_node_set(&graphs, n, Ghost(*self));

        // Hand every node that no band captured to band zero.
        let parent_ids = gm_nodes_vec(&self.graph);
        let ghost child_i = graphs@[i as int];
        let mut first_partition = graphs.remove(0);
        proof {
            reveal(is_child_partition);
            assert(is_child_partition(first_partition, *self, nn, 0));
            assert(is_child_partition(child_i, *self, nn, i as int));
        }
        absorb_missing_nodes(&mut first_partition.graph, &parent_ids, &covered);

        proof {
            assert(parent_ids@.to_set() == pn);
            lemma_part0_assembly(vs, em, pn, nn, gm_nodes(first_partition.graph));
            assert(graph_wf(first_partition.graph));
        }

        if i == 0 {
            Ok(first_partition)
        } else {
            let p = graphs.remove(i - 1);
            proof {
                assert(p == child_i);
            }
            Ok(p)
        }
    }
}


/// The nodes covered by the first `k` partitions.
pub open spec fn parts_union(
    vs: Seq<Vertex>,
    em: Map<(Osmid, Osmid), u64>,
    pn: Set<Osmid>,
    n: int,
    k: int,
) -> Set<Osmid>
    decreases k,
{
    if k <= 0 {
        Set::empty()
    } else {
        parts_union(vs, em, pn, n, k - 1).union(part_nodes(vs, em, pn, n, k - 1))
    }
}

/// The nodes captured by child graphs all lie in the parent's node set.
proof fn lemma_children_union_in_parent(
    vs: Seq<Vertex>,
    em: Map<(Osmid, Osmid), u64>,
    pn: Set<Osmid>,
    n: int,
    k: int,
)
    requires
        forall|t: (Osmid, Osmid)| #[trigger]
            em.contains_key(t) ==> pn.contains(t.0) && pn.contains(t.1),
    ensures
        children_union(vs, em, n, k) <= pn,
    decreases k,
{
    if k > 0 {
        lemma_children_union_in_parent(vs, em, pn, n, k - 1);
        lemma_child_nodes_in_parent(vs, em, pn, n, k - 1);
    }
}

/// The union of the first `k` partitions, for `k` at least one, is the
/// orphan set together with the nodes the first `k` child graphs capture.
proof fn lemma_parts_union_shape(
    vs: Seq<Vertex>,
    em: Map<(Osmid, Osmid), u64>,
    pn: Set<Osmid>,
    n: int,
    k: int,
)
    requires
        1 <= k,
    ensures
        parts_union(vs, em, pn, n, k) =~= orphan_set(vs, em, pn, n).union(
            children_union(vs, em, n, k),
        ),
    decreases k,
{
    if k == 1 {
        assert(parts_union(vs, em, pn, n, 0) == Set::<Osmid>::empty());
        assert(children_union(vs, em, n, 0) == Set::<Osmid>::empty());
        assert(parts_union(vs, em, pn, n, 1) =~= part_nodes(vs, em, pn, n, 0));
        assert(children_union(vs, em, n, 1) =~= child_nodes(vs, em, n, 0));
    } else {
        lemma_parts_union_shape(vs, em, pn, n, k - 1);
    }
}

/// Partition coverage: for any well-formed graph and any number of bands
/// `n` of at least one, the node sets of the `n` partitions together are
/// exactly the node set of the parent graph.
pub proof fn lemma_partition_coverage(
    vs: Seq<Vertex>,
    em: Map<(Osmid, Osmid), u64>,
    pn: Set<Osmid>,
    n: int,
)
    requires
        n >= 1,
        forall|t: (Osmid, Osmid)| #[trigger]
            em.contains_key(t) ==> pn.contains(t.0) && pn.contains(t.1),
    ensures
        parts_union(vs, em, pn, n, n) == pn,
{
    lemma_parts_union_shape(vs, em, pn, n, n);
    lemma_children_union_in_parent(vs, em, pn, n, n);
    assert(parts_union(vs, em, pn, n, n) =~= pn);
}

/// Partition determinism: any two results that the partitioner's
/// contract admits for the same graph, band count and index hold the
/// same nodes and the same edges.
pub proof fn lemma_partition_deterministic(
    g: OSMGraph,
    n: int,
    i: int,
    p1: OSMGraph,
    p2: OSMGraph,
)
    requires
        gm_nodes(p1.graph) == part_nodes(
            g.spec_vertices(),
            gm_edges(g.graph),
            gm_nodes(g.graph),
            n,
            i,
        ),
        gm_nodes(p2.graph) == part_nodes(
            g.spec_vertices(),
            gm_edges(g.graph),
            gm_nodes(g.graph),
            n,
            i,
        ),
        gm_edges(p1.graph) == child_edges(g.spec_vertices(), gm_edges(g.graph), n, i),
        gm_edges(p2.graph) == child_edges(g.spec_vertices(), gm_edges(g.graph), n, i),
    ensures
        gm_nodes(p1.graph) == gm_nodes(p2.graph),
        gm_edges(p1.graph) == gm_edges(p2.graph),
{
}

/// Orphan absorption: a node on no edge belongs to partition zero and to
/// no other partition.
pub proof fn lemma_orphan_absorption(
    vs: Seq<Vertex>,
    em: Map<(Osmid, Osmid), u64>,
    pn: Set<Osmid>,
    n: int,
    v: Osmid,
)
    requires
        n >= 1,
        pn.contains(v),
        forall|t: (Osmid, Osmid)| #[trigger] em.contains_key(t) ==> t.0 != v && t.1 != v,
    ensures
        part_nodes(vs, em, pn, n, 0).contains(v),
        forall|i: int| 1 <= i < n ==> !part_nodes(vs, em, pn, n, i).contains(v),
{
    assert forall|i: int| 0 <= i < n implies !child_nodes(vs, em, n, i).contains(v) by {
        reveal(child_edges);
        if child_nodes(vs, em, n, i).contains(v) {
            let k = choose|k: (Osmid, Osmid)| #[trigger]
                child_edges(vs, em, n, i).contains_key(k) && (k.0 == v || k.1 == v);
            assert(em.contains_key(k));
        }
    }
    assert forall|k: int| 0 <= k <= n implies !children_union(vs, em, n, k).contains(v) by {
        lemma_not_in_children_union(vs, em, n, k, v);
    }
    assert(orphan_set(vs, em, pn, n).contains(v));
}

/// A node that no child graph captures is in no prefix union of the
/// child node sets.
proof fn lemma_not_in_children_union(
    vs: Seq<Vertex>,
    em: Map<(Osmid, Osmid), u64>,
    n: int,
    k: int,
    v: Osmid,
)
    requires
        forall|i: int| 0 <= i < n ==> !child_nodes(vs, em, n, i).contains(v),
        k <= n,
    ensures
        !children_union(vs, em, n, k).contains(v),
    decreases k,
{
    if k > 0 {
        lemma_not_in_children_union(vs, em, n, k - 1, v);
    }
}

} // verus!
