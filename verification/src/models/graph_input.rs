//! Plain-value records describing the input road network.
//!
//! Coordinates and lengths are fixed-point integers: the program that
//! reads the network file scales the raw floating-point values before
//! handing them to this crate.

use vstd::prelude::*;
use crate::graph::gmap::Osmid;

verus! {

/// The whole input record: a named road network of a known size.
#[derive(Debug)]
pub struct GraphInput {
    /// The name of the file this input came from.
    pub filename: String,
    /// The declared size of the graph.
    pub size: usize,
    /// The road network itself.
    pub graph: Graph,
}

/// A road network as read from the input: a vertex list and an edge list.
#[derive(Debug, Clone, Default)]
pub struct Graph {
    /// The vertices of the network.
    pub vertices: Vec<Vertex>,
    /// The directed edges of the network.
    pub edges: Vec<Edge>,
}

/// A directed road segment between two vertices.
#[derive(Debug, Clone)]
pub struct Edge {
    /// The OSM id of the source vertex.
    pub from: Osmid,
    /// The OSM id of the target vertex.
    pub to: Osmid,
    /// The length of the segment, in fixed-point metres.
    pub length: u64,
    /// The speed limit annotation, as written in the input.
    pub max_speed: String,
    /// The name of the road this segment belongs to.
    pub name: String,
    /// The OSM id of the road, as written in the input.
    pub osm_id: String,
}

/// A vertex of the road network.  Its identity is `osm_id` alone; the
/// coordinates are metadata used for spatial partitioning.
#[derive(Debug, Clone, Copy)]
pub struct Vertex {
    /// The x coordinate, in fixed-point units.
    pub x: i64,
    /// The y coordinate, in fixed-point units.
    pub y: i64,
    /// The OSM id, the vertex's identity.
    pub osm_id: Osmid,
}

impl PartialEq for Vertex {
    /// Two vertices are the same exactly when their OSM ids agree.
    fn eq(&self, other: &Self) -> (r: bool) {
        self.osm_id == other.osm_id
    }
}

impl Eq for Vertex {}

impl vstd::std_specs::cmp::PartialEqSpecImpl for Vertex {
    open spec fn obeys_eq_spec() -> bool {
        true
    }

    open spec fn eq_spec(&self, other: &Self) -> bool {
        self.osm_id == other.osm_id
    }
}

} // verus!
