//! The coordinator's decisions: routing, the edge-length oracle, the
//! termination threshold, and the local driver.

use std::collections::HashMap;

use streets_sim::cli::Parallelism;
use streets_sim::error::Error;
use streets_sim::graph::osm_graph::{GPartition, OSMGraph};
use streets_sim::models::graph_input::{Edge, Graph, Vertex};
use streets_sim::utils::MAX_NUMBER_OF_VEHICLES;
use streets_sim::vmpi::{
    map_vehicle_to_rank, EDGE_LENGTH_REQUEST, LEAF_ROOT_VEHICLE, LEAF_ROOT_VEHICLE_FINISH,
    ROOT_LEAF_TERMINATE, ROOT_LEAF_VEHICLE,
};
use streets_sim::world::{
    build_node_to_rank, classify_leaf_event, classify_root_event, compute_finishing_threshold,
    edge_length_response, handle_finish, process_vehicle, run_local, validate_run_config,
    validate_world_size, DriveOutcome, LeafEvent, RootEvent, RootState,
};
use streets_sim::models::vehicle_builder::VehicleBuilder;

fn vx(osm_id: usize, x: i64, y: i64) -> Vertex {
    Vertex { x, y, osm_id }
}

fn ed(from: usize, to: usize, length: u64) -> Edge {
    Edge {
        from,
        to,
        length,
        max_speed: String::new(),
        name: String::new(),
        osm_id: String::new(),
    }
}

#[test]
fn oracle_returns_stored_edge_length() {
    let g = OSMGraph::new(Graph {
        vertices: vec![vx(1, 0, 0), vx(2, 1, 0)],
        edges: vec![ed(1, 2, 77)],
    })
    .unwrap();
    assert_eq!(edge_length_response(&g, 1, 2), 77);
}

#[test]
fn oracle_falls_back_to_shortest_path() {
    // No direct edge from 1 to 3, but a two-edge path of length 30.
    let g = OSMGraph::new(Graph {
        vertices: vec![vx(1, 0, 0), vx(2, 1, 0), vx(3, 2, 0)],
        edges: vec![ed(1, 2, 10), ed(2, 3, 20)],
    })
    .unwrap();
    assert_eq!(edge_length_response(&g, 1, 3), 30);
    // With no path at all the answer is zero.
    assert_eq!(edge_length_response(&g, 3, 1), 0);
}

#[test]
fn termination_threshold() {
    // Ten vehicles at an error rate of one fifth: the threshold is
    // eight, and the eighth finish notification, exactly, terminates.
    let threshold = compute_finishing_threshold(10, 200_000);
    assert_eq!(threshold, 8);
    let mut state = RootState {
        num_vehicles: 10,
        finishing_threshold: threshold,
        finished_vehicle_counter: 0,
        step_accumulator: 0,
    };
    let mut terminations = 0;
    for i in 1..=8u64 {
        let terminate = handle_finish(&mut state, i);
        if terminate {
            terminations += 1;
            assert_eq!(state.finished_vehicle_counter, 8);
        }
    }
    assert_eq!(terminations, 1, "exactly the eighth finish terminates");
    assert_eq!(state.step_accumulator, (1..=8u64).sum::<u64>());
}

#[test]
fn threshold_rounds_up() {
    // Three vehicles at a third error rate: ceil(3 * 2/3) = 2.
    assert_eq!(compute_finishing_threshold(3, 333_334), 2);
    assert_eq!(compute_finishing_threshold(0, 0), 0);
    assert_eq!(compute_finishing_threshold(7, 0), 7);
    assert_eq!(compute_finishing_threshold(7, 1_000_000), 0);
}

#[test]
fn unroutable_vehicle_is_reported() {
    let v = VehicleBuilder::new()
        .with_speed(10)
        .with_path_ids(vec![1, 2])
        .with_prev_id(1)
        .with_next_id(2)
        .build()
        .unwrap();
    let empty: HashMap<usize, i32> = HashMap::new();
    assert_eq!(map_vehicle_to_rank(&v, &empty).unwrap_err(), Error::MissingMapping);
    let mut owned: HashMap<usize, i32> = HashMap::new();
    owned.insert(2, 4);
    assert_eq!(map_vehicle_to_rank(&v, &owned).unwrap(), 4);
}

#[test]
fn cross_partition_handoff() {
    // Four collinear vertices in two bands; a vehicle crosses from the
    // left band to the right one through the root.
    let g = OSMGraph::new(Graph {
        vertices: vec![vx(1, 0, 0), vx(2, 10, 0), vx(3, 20, 0), vx(4, 30, 0)],
        edges: vec![ed(1, 2, 50), ed(2, 3, 50), ed(3, 4, 50)],
    })
    .unwrap();
    let part0 = g.partition(2, 0).unwrap();
    let part1 = g.partition(2, 1).unwrap();

    let node_to_rank = build_node_to_rank(&g, 3).unwrap();

    let mut v = VehicleBuilder::new()
        .with_speed(10)
        .with_path_ids(vec![1, 2, 3, 4])
        .with_prev_id(1)
        .with_next_id(2)
        .build()
        .unwrap();

    // Leaf 1 asks the root for the length of (1, 2) and drives.
    let el = edge_length_response(&g, v.prev_id, v.next_id);
    assert_eq!(el, 50);
    let outcome = process_vehicle(&mut v, &part0, el).unwrap();
    assert_eq!(outcome, DriveOutcome::HandedBack);
    assert!(v.marked_for_deletion);
    assert_eq!((v.prev_id, v.next_id), (3, 4));

    // The root routes the vehicle by its next node to leaf 2.
    assert_eq!(map_vehicle_to_rank(&v, &node_to_rank).unwrap(), 2);

    // Leaf 2 finishes it.
    let el = edge_length_response(&g, v.prev_id, v.next_id);
    let outcome = process_vehicle(&mut v, &part1, el).unwrap();
    assert_eq!(outcome, DriveOutcome::Finished);
    assert!(v.is_parked);
    assert_eq!(v.steps, 2);
}

#[test]
fn already_parked_vehicle_counts_as_finished() {
    let g = OSMGraph::new(Graph {
        vertices: vec![vx(1, 0, 0), vx(2, 1, 0)],
        edges: vec![ed(1, 2, 10)],
    })
    .unwrap();
    let part = g.partition(1, 0).unwrap();
    let mut v = VehicleBuilder::new()
        .with_speed(10)
        .with_path_ids(vec![1, 2])
        .with_prev_id(1)
        .with_next_id(2)
        .with_is_parked(true)
        .build()
        .unwrap();
    let outcome = process_vehicle(&mut v, &part, 0).unwrap();
    assert_eq!(outcome, DriveOutcome::Finished);
}

#[test]
fn out_of_bounds_vehicle_is_rejected() {
    let g = OSMGraph::new(Graph {
        vertices: vec![vx(1, 0, 0), vx(2, 1, 0)],
        edges: vec![ed(1, 2, 10)],
    })
    .unwrap();
    let part = g.partition(1, 0).unwrap();
    let mut v = VehicleBuilder::new()
        .with_speed(10)
        .with_path_ids(vec![1, 2])
        .with_prev_id(1)
        .with_next_id(2)
        .build()
        .unwrap();
    v.speed = 0;
    assert_eq!(process_vehicle(&mut v, &part, 0).unwrap_err(), Error::Generic);
}

#[test]
fn event_classification() {
    assert_eq!(classify_root_event(LEAF_ROOT_VEHICLE), RootEvent::VehicleReturned);
    assert_eq!(classify_root_event(EDGE_LENGTH_REQUEST), RootEvent::EdgeLengthRequested);
    assert_eq!(classify_root_event(LEAF_ROOT_VEHICLE_FINISH), RootEvent::VehicleFinished);
    assert_eq!(classify_root_event(99), RootEvent::Unknown);
    assert_eq!(classify_leaf_event(ROOT_LEAF_VEHICLE), LeafEvent::VehicleArrived);
    assert_eq!(classify_leaf_event(ROOT_LEAF_TERMINATE), LeafEvent::Terminate);
    assert_eq!(classify_leaf_event(99), LeafEvent::Unknown);
}

#[test]
fn startup_validation() {
    assert!(validate_run_config(1, false, Parallelism::SingleThreaded).is_ok());
    assert_eq!(
        validate_run_config(1, true, Parallelism::SingleThreaded).unwrap_err(),
        Error::InvariantViolation
    );
    assert!(validate_run_config(MAX_NUMBER_OF_VEHICLES, true, Parallelism::MultiThreaded).is_ok());
    assert!(validate_world_size(2).is_ok());
    assert_eq!(validate_world_size(1).unwrap_err(), Error::InvariantViolation);
}

#[test]
fn local_run_accumulates_steps() {
    let mut vertices = Vec::new();
    let mut edges = Vec::new();
    for i in 1..=10usize {
        vertices.push(vx(i, i as i64 * 10, 0));
        if i > 1 {
            edges.push(ed(i - 1, i, 10));
            edges.push(ed(i, i - 1, 10));
        }
    }
    let g = OSMGraph::new(Graph { vertices, edges }).unwrap();
    let total = run_local(&g, 3, 5, 8).unwrap();
    assert!(total > 0);
    assert_eq!(run_local(&g, 0, 5, 8).unwrap(), 0);
}
