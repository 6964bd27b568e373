//! Trusted layer over `petgraph`'s adjacency-map graph.
//!
//! The simulator stores its road network in a directed
//! `petgraph::graphmap::GraphMap` whose nodes are OSM vertex ids and whose
//! edge weights are scalar lengths.  Verified code never looks inside that
//! structure; instead its node set and edge map are named by two
//! uninterpreted spec functions, and every method the simulator calls is
//! wrapped in a small function whose contract states, over those names,
//! what the `petgraph` source shows.

use vstd::prelude::*;

verus! {

/// An OSM vertex identifier, the stable global key across partitions.
pub type Osmid = usize;

/// The road network representation: a directed graph over OSM ids whose
/// edges carry a scalar length.
pub type RoadGraph = petgraph::graphmap::GraphMap<
    Osmid,
    u64,
    petgraph::Directed,
    std::collections::hash_map::RandomState,
>;

#[verifier::external_type_specification]
#[verifier::external_body]
#[verifier::reject_recursive_types(N)]
#[verifier::reject_recursive_types(E)]
#[verifier::reject_recursive_types(Ty)]
#[verifier::reject_recursive_types(S)]
pub struct ExGraphMap<N, E, Ty, S>(petgraph::graphmap::GraphMap<N, E, Ty, S>) where
    S: std::hash::BuildHasher;

#[verifier::external_type_specification]
#[verifier::external_body]
pub struct ExDirected(petgraph::Directed);

/// The set of nodes a road graph holds.
pub uninterp spec fn gm_nodes(g: RoadGraph) -> Set<Osmid>;

/// The directed edges a road graph holds, as a map from (source, target)
/// to the edge's length.
pub uninterp spec fn gm_edges(g: RoadGraph) -> Map<(Osmid, Osmid), u64>;

/// Relies on `GraphMap::new`; nothing is claimed here, the graph is
/// emptied by `gm_reset` before use.
#[verifier::external_body]
fn gm_raw() -> RoadGraph {
    petgraph::graphmap::DiGraphMap::new()
}

/// Relies on `GraphMap::new`: a fresh graph has no nodes and no edges.
#[verifier::external_body]
fn gm_reset(g: &mut RoadGraph)
    ensures
        gm_nodes(*final(g)) =~= Set::empty(),
        gm_edges(*final(g)) =~= Map::empty(),
{
    *g = petgraph::graphmap::DiGraphMap::new();
}

/// An empty road graph.
pub(crate) fn gm_new() -> (r: RoadGraph)
    ensures
        gm_nodes(r) == Set::<Osmid>::empty(),
        gm_edges(r) == Map::<(Osmid, Osmid), u64>::empty(),
{
    let mut g = gm_raw();
    gm_reset(&mut g);
    g
}

/// Relies on `GraphMap::add_node`: inserts the node, leaves edges alone.
#[verifier::external_body]
pub(crate) fn gm_add_node(g: &mut RoadGraph, n: Osmid)
    ensures
        gm_nodes(*final(g)) == gm_nodes(*old(g)).insert(n),
        gm_edges(*final(g)) == gm_edges(*old(g)),
{
    g.add_node(n);
}

/// Relies on `GraphMap::add_edge`: inserts both endpoints if absent and
/// sets the weight of the directed edge, replacing any previous weight.
#[verifier::external_body]
pub(crate) fn gm_add_edge(g: &mut RoadGraph, a: Osmid, b: Osmid, w: u64)
    ensures
        gm_nodes(*final(g)) == gm_nodes(*old(g)).insert(a).insert(b),
        gm_edges(*final(g)) == gm_edges(*old(g)).insert((a, b), w),
{
    g.add_edge(a, b, w);
}

/// Relies on `GraphMap::contains_node`: membership in the node set.
#[verifier::external_body]
pub(crate) fn gm_contains_node(g: &RoadGraph, n: Osmid) -> (r: bool)
    ensures
        r == gm_nodes(*g).contains(n),
{
    g.contains_node(n)
}

/// Relies on `GraphMap::contains_edge`: membership in the edge map.
#[verifier::external_body]
pub(crate) fn gm_contains_edge(g: &RoadGraph, a: Osmid, b: Osmid) -> (r: bool)
    ensures
        r == gm_edges(*g).contains_key((a, b)),
{
    g.contains_edge(a, b)
}

/// Relies on `GraphMap::edge_weight`: the weight stored for the directed
/// edge, if any.
#[verifier::external_body]
pub(crate) fn gm_edge_weight(g: &RoadGraph, a: Osmid, b: Osmid) -> (r: Option<u64>)
    ensures
        match r {
            Some(w) => gm_edges(*g).contains_key((a, b)) && gm_edges(*g)[(a, b)] == w,
            None => !gm_edges(*g).contains_key((a, b)),
        },
{
    g.edge_weight(a, b).copied()
}

/// Relies on `GraphMap::node_count`: the number of nodes.
#[verifier::external_body]
pub(crate) fn gm_node_count(g: &RoadGraph) -> (r: usize)
    ensures
        r == gm_nodes(*g).len(),
{
    g.node_count()
}

/// Relies on `GraphMap::nodes`: yields each node exactly once.
#[verifier::external_body]
pub(crate) fn gm_nodes_vec(g: &RoadGraph) -> (r: Vec<Osmid>)
    ensures
        r@.no_duplicates(),
        r@.to_set() == gm_nodes(*g),
{
    g.nodes().collect()
}

/// Relies on `GraphMap::all_edges`: yields each directed edge with its
/// weight exactly once.
#[verifier::external_body]
pub(crate) fn gm_all_edges_vec(g: &RoadGraph) -> (r: Vec<(Osmid, Osmid, u64)>)
    ensures
        forall|i: int, j: int|
            0 <= i < j < r@.len() ==> (r@[i].0, r@[i].1) != (r@[j].0, r@[j].1),
        forall|i: int|
            0 <= i < r@.len() ==> gm_edges(*g).contains_pair((r@[i].0, r@[i].1), r@[i].2),
        forall|a: Osmid, b: Osmid|
            gm_edges(*g).contains_key((a, b)) ==> exists|i: int|
                0 <= i < r@.len() && r@[i].0 == a && r@[i].1 == b,
{
    g.all_edges().map(|e: (Osmid, Osmid, &u64)| (e.0, e.1, *e.2)).collect()
}

} // verus!
