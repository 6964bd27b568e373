//! The vehicle state machine: stepping, termination, and the factory.

use streets_sim::graph::osm_graph::OSMGraph;
use streets_sim::models::graph_input::{Edge, Graph, Vertex};
use streets_sim::models::vehicle::{Moveable, Vehicle};
use streets_sim::models::vehicle_builder::VehicleBuilder;
use streets_sim::error::Error;

fn vx(osm_id: usize, x: i64, y: i64) -> Vertex {
    Vertex { x, y, osm_id }
}

fn ed(from: usize, to: usize, length: u64) -> Edge {
    Edge {
        from,
        to,
        length,
        max_speed: String::new(),
        name: String::new(),
        osm_id: String::new(),
    }
}

fn vehicle(path: Vec<usize>, speed: u64) -> Vehicle {
    let p0 = path[0];
    let p1 = path[1];
    VehicleBuilder::new()
        .with_delta(0)
        .with_is_parked(false)
        .with_speed(speed)
        .with_path_ids(path)
        .with_prev_id(p0)
        .with_next_id(p1)
        .build()
        .unwrap()
}

#[test]
fn two_node_trivial_path() {
    // One edge of length 100 traversed at speed 10: the vehicle parks
    // after a single step, with the residual distance of one full speed
    // unit (100 is a whole multiple of 10, so the residual is the speed
    // itself, within one speed unit of zero).
    let g = OSMGraph::new(Graph {
        vertices: vec![vx(1, 0, 0), vx(2, 1, 0)],
        edges: vec![ed(1, 2, 100)],
    })
    .unwrap();
    let mut v = vehicle(vec![1, 2], 10);
    v.drive(&g);
    assert!(v.is_parked);
    assert_eq!(v.steps, 1);
    assert!(v.delta <= v.speed, "the residual stays within one speed unit");
    assert_eq!(v.delta % v.speed, 100 % 10);
}

#[test]
fn distance_conservation_on_one_edge() {
    // 105 at speed 10 leaves exactly the remainder 5.
    let g = OSMGraph::new(Graph {
        vertices: vec![vx(1, 0, 0), vx(2, 1, 0)],
        edges: vec![ed(1, 2, 105)],
    })
    .unwrap();
    let mut v = vehicle(vec![1, 2], 10);
    v.drive(&g);
    assert!(v.is_parked);
    assert_eq!(v.delta, 5);
}

#[test]
fn step_counter_never_decreases() {
    let g = OSMGraph::new(Graph {
        vertices: vec![vx(1, 0, 0), vx(2, 1, 0), vx(3, 2, 0), vx(4, 3, 0)],
        edges: vec![ed(1, 2, 30), ed(2, 3, 30), ed(3, 4, 30)],
    })
    .unwrap();
    let mut v = vehicle(vec![1, 2, 3, 4], 10);
    let mut last = v.steps;
    while !v.is_parked && !v.marked_for_deletion {
        v.step(&g);
        assert!(v.steps >= last);
        last = v.steps;
    }
    assert!(v.is_parked);
}

#[test]
fn terminal_absorption() {
    // Once parked, further steps leave every field unchanged.
    let g = OSMGraph::new(Graph {
        vertices: vec![vx(1, 0, 0), vx(2, 1, 0)],
        edges: vec![ed(1, 2, 100)],
    })
    .unwrap();
    let mut v = vehicle(vec![1, 2], 10);
    v.drive(&g);
    assert!(v.is_parked);
    let (steps, delta, prev, next) = (v.steps, v.delta, v.prev_id, v.next_id);
    v.step(&g);
    v.step(&g);
    assert_eq!(v.steps, steps);
    assert_eq!(v.delta, delta);
    assert_eq!(v.prev_id, prev);
    assert_eq!(v.next_id, next);
    assert!(v.is_parked);
}

#[test]
fn vehicle_leaving_partition_is_marked() {
    // Only the first edge is local; the lookahead sees the path leave
    // and encodes the next partition's first edge in (prev, next).
    let g = OSMGraph::new(Graph {
        vertices: vec![vx(1, 0, 0), vx(2, 1, 0)],
        edges: vec![ed(1, 2, 50)],
    })
    .unwrap();
    let mut v = vehicle(vec![1, 2, 3, 4], 10);
    v.drive(&g);
    assert!(!v.is_parked);
    assert!(v.marked_for_deletion);
    assert_eq!(v.prev_id, 3);
    assert_eq!(v.next_id, 4);
}

#[test]
fn builder_rejects_zero_speed() {
    let r = VehicleBuilder::new()
        .with_speed(0)
        .with_path_ids(vec![1, 2])
        .with_prev_id(1)
        .with_next_id(2)
        .build();
    assert_eq!(r.unwrap_err(), Error::Generic);
}

#[test]
fn builder_rejects_short_path() {
    let r = VehicleBuilder::new()
        .with_speed(10)
        .with_path_ids(vec![1])
        .with_prev_id(1)
        .with_next_id(1)
        .build();
    assert_eq!(r.unwrap_err(), Error::Generic);
}

#[test]
fn builder_rejects_reserved_start_node() {
    let r = VehicleBuilder::new()
        .with_speed(10)
        .with_path_ids(vec![0, 2])
        .with_prev_id(0)
        .with_next_id(2)
        .build();
    assert_eq!(r.unwrap_err(), Error::Generic);
}

#[test]
fn builder_stamps_ten_symbol_hex_id() {
    let v = vehicle(vec![1, 2], 10);
    assert_eq!(v.id.chars().count(), 10);
    assert!(v.id.chars().all(|c| "1234567890abcdef".contains(c)));
    let w = vehicle(vec![1, 2], 10);
    assert_ne!(v.id, w.id, "two drawn ids almost surely differ");
}

#[test]
fn generated_vehicle_has_expected_shape() {
    // A bidirectional chain guarantees plenty of long routes.
    let mut vertices = Vec::new();
    let mut edges = Vec::new();
    for i in 1..=10usize {
        vertices.push(vx(i, i as i64 * 10, 0));
        if i > 1 {
            edges.push(ed(i - 1, i, 10));
            edges.push(ed(i, i - 1, 10));
        }
    }
    let g = OSMGraph::new(Graph { vertices, edges }).unwrap();
    let v = Vehicle::generate_default(&g.graph, 5, 8).unwrap();
    assert!(v.path_ids.len() >= 5);
    assert_eq!(v.prev_id, v.path_ids[0]);
    assert_eq!(v.next_id, v.path_ids[1]);
    assert!(v.speed >= 5 && v.speed <= 8);
    assert_eq!(v.delta, 0);
    assert_eq!(v.steps, 0);
    assert!(!v.is_parked);
    assert!(!v.marked_for_deletion);
}

#[test]
fn generation_fails_on_empty_graph() {
    let g = OSMGraph::new(Graph { vertices: vec![], edges: vec![] }).unwrap();
    let r = Vehicle::generate_default(&g.graph, 5, 8);
    assert_eq!(r.unwrap_err(), Error::Generic);
}
