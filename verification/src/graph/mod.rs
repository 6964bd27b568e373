//! The road network: bounding rectangles, the graph wrapper, and the
//! shortest-path length oracle.

use vstd::prelude::*;

pub mod gmap;
pub mod osm_graph;
pub mod rect;

use crate::graph::gmap::{gm_edges, gm_nodes, Osmid, RoadGraph};
use crate::graph::osm_graph::graph_wf;

verus! {

/// Whether `p` walks existing directed edges from `from` to `to`.
pub open spec fn is_path(
    em: Map<(Osmid, Osmid), u64>,
    p: Seq<Osmid>,
    from: Osmid,
    to: Osmid,
) -> bool {
    &&& p.len() >= 1
    &&& p[0] == from
    &&& p[p.len() - 1] == to
    &&& forall|i: int| 0 <= i < p.len() - 1 ==> #[trigger] em.contains_key((p[i], p[i + 1]))
}

/// The total length of a walk: the sum of its edges' weights.
pub open spec fn path_cost(em: Map<(Osmid, Osmid), u64>, p: Seq<Osmid>) -> int
    decreases p.len(),
{
    if p.len() <= 1 {
        0
    } else {
        em[(p[0], p[1])] + path_cost(em, p.drop_first())
    }
}

/// A verified goal test for the search below.
fn goal_reached(n: Osmid, to: Osmid) -> (r: bool)
    ensures
        r == (n == to),
{
    n == to
}

/// A verified zero heuristic: with it the search is plain shortest-path
/// search over the edge weights.
fn zero_estimate(_n: Osmid) -> (r: u64)
    ensures
        r == 0,
{
    0
}

/// Relies on `petgraph::algo::astar` with the zero heuristic, which is
/// shortest-path search: the result is a duplicate-free path from `from`
/// to `to` whose cost no other path undercuts, or nothing when `to` is
/// unreachable.  The bounds keep every cost the search adds within
/// `u64`.
#[verifier::external_body]
pub(crate) fn astar_shortest(g: &RoadGraph, from: Osmid, to: Osmid) -> (r: Option<(u64, Vec<Osmid>)>)
    requires
        graph_wf(*g),
    ensures
        match r {
            Some(found) => {
                &&& is_path(gm_edges(*g), found.1@, from, to)
                &&& found.1@.no_duplicates()
                &&& found.0 as int == path_cost(gm_edges(*g), found.1@)
                &&& forall|q: Seq<Osmid>|
                    is_path(gm_edges(*g), q, from, to) ==> path_cost(gm_edges(*g), q)
                        >= found.0 as int
            },
            None => forall|q: Seq<Osmid>| !is_path(gm_edges(*g), q, from, to),
        },
{
    petgraph::algo::astar(
        g,
        from,
        |n: Osmid| goal_reached(n, to),
        |e: (Osmid, Osmid, &u64)| *e.2,
        |n: Osmid| zero_estimate(n),
    )
}

/// Whether `r` answers an edge-length question over the full graph: the
/// length of the shortest path where one exists, and zero otherwise.
pub open spec fn shortest_response(
    em: Map<(Osmid, Osmid), u64>,
    from: Osmid,
    to: Osmid,
    r: u64,
) -> bool {
    if exists|q: Seq<Osmid>| is_path(em, q, from, to) {
        &&& exists|q: Seq<Osmid>| is_path(em, q, from, to) && path_cost(em, q) == r as int
        &&& forall|q: Seq<Osmid>| is_path(em, q, from, to) ==> path_cost(em, q) >= r as int
    } else {
        r == 0
    }
}

/// The length of the shortest path from `from` to `to`, or zero when no
/// path exists.
pub fn get_path_length(from: Osmid, to: Osmid, graph: &RoadGraph) -> (r: u64)
    requires
        graph_wf(*graph),
    ensures
        shortest_response(gm_edges(*graph), from, to, r),
{
    match astar_shortest(graph, from, to) {
        Some(found) => {
            proof {
                let p = found.1@;
                assert(is_path(gm_edges(*graph), p, from, to) && path_cost(gm_edges(*graph), p)
                    == found.0 as int);
            }
            found.0
        },
        None => 0,
    }
}

} // verus!
