//! Spatial partitioning: coverage, determinism, and orphan absorption.

use std::collections::HashSet;

use streets_sim::error::Error;
use streets_sim::graph::osm_graph::{GPartition, OSMGraph};
use streets_sim::models::graph_input::{Edge, Graph, Vertex};

fn vx(osm_id: usize, x: i64, y: i64) -> Vertex {
    Vertex { x, y, osm_id }
}

fn ed(from: usize, to: usize, length: u64) -> Edge {
    Edge {
        from,
        to,
        length,
        max_speed: String::new(),
        name: String::new(),
        osm_id: String::new(),
    }
}

fn line_graph() -> OSMGraph {
    // Four collinear vertices with three forward edges.
    let g = Graph {
        vertices: vec![vx(1, 0, 0), vx(2, 10, 0), vx(3, 20, 0), vx(4, 30, 0)],
        edges: vec![ed(1, 2, 50), ed(2, 3, 50), ed(3, 4, 50)],
    };
    OSMGraph::new(g).unwrap()
}

#[test]
fn partition_coverage() {
    let g = line_graph();
    let all: HashSet<usize> = g.graph.nodes().collect();
    for n in 1..4usize {
        let mut covered: HashSet<usize> = HashSet::new();
        for i in 0..n {
            let p = g.partition(n, i).unwrap();
            covered.extend(p.graph.nodes());
        }
        assert_eq!(covered, all, "the {} partitions must cover every node", n);
    }
}

#[test]
fn partition_determinism() {
    let g = line_graph();
    for i in 0..2usize {
        let p1 = g.partition(2, i).unwrap();
        let p2 = g.partition(2, i).unwrap();
        let n1: HashSet<usize> = p1.graph.nodes().collect();
        let n2: HashSet<usize> = p2.graph.nodes().collect();
        assert_eq!(n1, n2);
        let e1: HashSet<(usize, usize, u64)> =
            p1.graph.all_edges().map(|e| (e.0, e.1, *e.2)).collect();
        let e2: HashSet<(usize, usize, u64)> =
            p2.graph.all_edges().map(|e| (e.0, e.1, *e.2)).collect();
        assert_eq!(e1, e2);
    }
}

#[test]
fn interior_edges_live_in_exactly_one_partition() {
    let g = line_graph();
    // With two bands over the x extent 0..30, vertices 1 and 2 fall in
    // the left band and vertices 3 and 4 in the right band.
    let p0 = g.partition(2, 0).unwrap();
    let p1 = g.partition(2, 1).unwrap();
    assert!(p0.graph.contains_edge(1, 2));
    assert!(!p1.graph.contains_edge(1, 2));
    assert!(p1.graph.contains_edge(3, 4));
    assert!(!p0.graph.contains_edge(3, 4));
    // The straddling edge 2 -> 3 belongs to no partition.
    assert!(!p0.graph.contains_edge(2, 3));
    assert!(!p1.graph.contains_edge(2, 3));
}

#[test]
fn orphan_lands_in_partition_zero_only() {
    // An isolated vertex away on the x axis, on no edge at all.
    let g = Graph {
        vertices: vec![
            vx(1, 0, 0),
            vx(2, 10, 0),
            vx(3, 20, 0),
            vx(4, 30, 0),
            vx(99, 17, 5),
        ],
        edges: vec![ed(1, 2, 50), ed(2, 3, 50), ed(3, 4, 50)],
    };
    let g = OSMGraph::new(g).unwrap();
    let mut holders = 0;
    for i in 0..3usize {
        let p = g.partition(3, i).unwrap();
        if p.graph.contains_node(99) {
            holders += 1;
            assert_eq!(i, 0, "the isolated vertex belongs to partition zero");
        }
    }
    assert_eq!(holders, 1, "the isolated vertex appears exactly once");
}

#[test]
fn partition_of_empty_vertex_list_is_rejected() {
    let g = OSMGraph::new(Graph {
        vertices: vec![],
        edges: vec![],
    })
    .unwrap();
    assert_eq!(g.partition(2, 0).unwrap_err(), Error::EmptyInput);
}

#[test]
fn oversized_edge_length_is_rejected() {
    let r = OSMGraph::new(Graph {
        vertices: vec![vx(1, 0, 0), vx(2, 1, 0)],
        edges: vec![ed(1, 2, u64::MAX)],
    });
    assert_eq!(r.unwrap_err(), Error::InvariantViolation);
}

#[test]
fn graph_keeps_isolated_vertices_as_nodes() {
    let g = OSMGraph::new(Graph {
        vertices: vec![vx(1, 0, 0), vx(2, 5, 0), vx(7, 3, 3)],
        edges: vec![ed(1, 2, 10)],
    })
    .unwrap();
    assert!(g.graph.contains_node(7));
    assert_eq!(g.graph.node_count(), 3);
}
